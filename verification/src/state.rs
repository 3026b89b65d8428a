//! The system-state snapshot: the mutable facts shown on the display, the
//! derived login payload, and the field-wise comparison that decides whether
//! a redraw is due.

use vstd::prelude::*;
use crate::ansi::str_eq;
use crate::payload::{extract_addrs, generate_login_json, is_space, json_payload};

verus! {

/// The facts shown on the display, captured fresh on every poll tick. The
/// login payload is derived from the password, the onion hostname and the
/// address lines, never set independently.
pub struct DisplayState {
    pub root_password: String,
    pub onion_hostname: String,
    pub login_json: String,
    pub ip_addrs: Vec<String>,
    pub hostname: String,
}

impl DisplayState {
    /// Field-wise equality of two snapshots.
    pub open spec fn state_eq(self, other: DisplayState) -> bool {
        &&& self.root_password@ == other.root_password@
        &&& self.onion_hostname@ == other.onion_hostname@
        &&& self.login_json@ == other.login_json@
        &&& self.ip_addrs.deep_view() == other.ip_addrs.deep_view()
        &&& self.hostname@ == other.hostname@
    }

    /// The snapshot invariant: the payload is the JSON derived from the
    /// password, the onion hostname and the addresses extracted from the raw
    /// lines.
    pub open spec fn wf(self) -> bool {
        self.login_json@ == json_payload(
            self.root_password@,
            self.onion_hostname@,
            extract_addrs(self.ip_addrs.deep_view()),
        )
    }

    /// Build a snapshot from the raw inputs, deriving the login payload.
    pub fn new(
        root_password: String,
        onion_hostname: String,
        ip_addrs: Vec<String>,
        hostname: String,
    ) -> (s: DisplayState)
        ensures
            s.wf(),
            s.root_password@ == root_password@,
            s.onion_hostname@ == onion_hostname@,
            s.ip_addrs.deep_view() == ip_addrs.deep_view(),
            s.hostname@ == hostname@,
    {
        let login_json = generate_login_json(
            root_password.as_str(),
            onion_hostname.as_str(),
            &ip_addrs,
        );
        DisplayState { root_password, onion_hostname, login_json, ip_addrs, hostname }
    }

    /// Whether this snapshot differs from another in any field.
    pub fn has_changed(&self, other: &DisplayState) -> (r: bool)
        ensures
            r == !self.state_eq(*other),
    {
        !str_eq(self.root_password.as_str(), other.root_password.as_str())
            || !str_eq(self.onion_hostname.as_str(), other.onion_hostname.as_str())
            || !str_eq(self.login_json.as_str(), other.login_json.as_str())
            || !vec_str_eq(&self.ip_addrs, &other.ip_addrs)
            || !str_eq(self.hostname.as_str(), other.hostname.as_str())
    }
}

/// Compare two string vectors element by element.
pub fn vec_str_eq(a: &Vec<String>, b: &Vec<String>) -> (r: bool)
    ensures
        r == (a.deep_view() == b.deep_view()),
{
    if a.len() != b.len() {
        proof {
            assert(a.deep_view().len() == a@.len());
            assert(b.deep_view().len() == b@.len());
        }
        return false;
    }
    let mut i: usize = 0;
    while i < a.len()
        invariant
            a@.len() == b@.len(),
            i <= a@.len(),
            forall|k: int| 0 <= k < i ==> a.deep_view()[k] == b.deep_view()[k],
        decreases a@.len() - i,
    {
        if !str_eq(a[i].as_str(), b[i].as_str()) {
            proof {
                assert(a.deep_view()[i as int] != b.deep_view()[i as int]);
            }
            return false;
        }
        proof {
            assert(a.deep_view()[i as int] == b.deep_view()[i as int]);
        }
        i += 1;
    }
    proof {
        assert(a.deep_view() =~= b.deep_view());
    }
    true
}

/// Snapshot equality is reflexive: a snapshot compared to itself, or to an
/// identical clone, reports no change.
pub proof fn lemma_state_eq_reflexive(s: DisplayState)
    ensures
        s.state_eq(s),
{
}

/// Snapshot equality is symmetric: the comparison does not depend on which
/// snapshot is the prior one.
pub proof fn lemma_state_eq_symmetric(a: DisplayState, b: DisplayState)
    ensures
        a.state_eq(b) == b.state_eq(a),
{
}

/// A difference in any single field makes the snapshots unequal.
pub proof fn lemma_state_eq_sensitive(a: DisplayState, b: DisplayState)
    ensures
        a.root_password@ != b.root_password@ ==> !a.state_eq(b),
        a.onion_hostname@ != b.onion_hostname@ ==> !a.state_eq(b),
        a.login_json@ != b.login_json@ ==> !a.state_eq(b),
        a.ip_addrs.deep_view() != b.ip_addrs.deep_view() ==> !a.state_eq(b),
        a.hostname@ != b.hostname@ ==> !a.state_eq(b),
{
}

/// The login payload is a function of the password, the onion hostname and
/// the raw address lines alone: snapshots built from equal inputs carry
/// byte-identical payloads.
pub proof fn lemma_payload_deterministic(a: DisplayState, b: DisplayState)
    requires
        a.wf(),
        b.wf(),
        a.root_password@ == b.root_password@,
        a.onion_hostname@ == b.onion_hostname@,
        a.ip_addrs.deep_view() == b.ip_addrs.deep_view(),
    ensures
        a.login_json@ == b.login_json@,
{
}

/// First index at or after `i` that holds a non-space character, or the
/// length.
pub open spec fn skip_spaces(s: Seq<char>, i: int) -> int
    decreases s.len() - i,
{
    if i < 0 || i >= s.len() {
        s.len() as int
    } else if is_space(s[i]) {
        skip_spaces(s, i + 1)
    } else {
        i
    }
}

/// Length of the text with trailing spaces removed, looking down from `i`.
pub open spec fn trim_end_pos(s: Seq<char>, i: int) -> int
    decreases i,
{
    if i <= 0 {
        0
    } else if is_space(s[i - 1]) {
        trim_end_pos(s, i - 1)
    } else {
        i
    }
}

/// The text with leading and trailing whitespace removed.
pub open spec fn trimmed(s: Seq<char>) -> Seq<char> {
    let a = skip_spaces(s, 0);
    let b = trim_end_pos(s, s.len() as int);
    if a <= b {
        s.subrange(a, b)
    } else {
        Seq::empty()
    }
}

/// Trim leading and trailing whitespace from a text.
pub fn trim_string(s: &str) -> (r: String)
    ensures
        r@ == trimmed(s@),
{
    let n = s.unicode_len();
    let mut a: usize = 0;
    loop
        invariant_except_break
            n == s@.len(),
            a <= n,
            skip_spaces(s@, 0) == skip_spaces(s@, a as int),
        ensures
            n == s@.len(),
            a <= n,
            a == skip_spaces(s@, 0),
        decreases n - a,
    {
        if a >= n {
            proof {
                assert(skip_spaces(s@, a as int) == a);
            }
            break;
        }
        let c = s.get_char(a);
        if !(c == ' ' || c == '\t' || c == '\n' || c == '\r') {
            proof {
                assert(skip_spaces(s@, a as int) == a);
            }
            break;
        }
        a += 1;
    }
    let mut b: usize = n;
    loop
        invariant_except_break
            n == s@.len(),
            a <= b <= n,
            a == skip_spaces(s@, 0),
            trim_end_pos(s@, n as int) == trim_end_pos(s@, b as int),
        ensures
            n == s@.len(),
            a <= b <= n,
            a == skip_spaces(s@, 0),
            trim_end_pos(s@, n as int) == trim_end_pos(s@, b as int),
            b <= a || trim_end_pos(s@, b as int) == b,
        decreases b,
    {
        if b <= a {
            break;
        }
        let c = s.get_char(b - 1);
        if !(c == ' ' || c == '\t' || c == '\n' || c == '\r') {
            proof {
                assert(trim_end_pos(s@, b as int) == b);
            }
            break;
        }
        b -= 1;
    }
    proof {
        if b > a {
            assert(trim_end_pos(s@, b as int) == b);
        } else {
            lemma_trim_end_at_start(s@, a as int, b as int);
        }
    }
    let piece = s.substring_char(a, b);
    let out = piece.to_owned();
    proof {
        assert(out@ =~= trimmed(s@));
    }
    out
}

/// Below the first non-space position, trimming from the right stops at or
/// before that position; at the boundary the two meet exactly.
proof fn lemma_trim_end_at_start(s: Seq<char>, a: int, b: int)
    requires
        0 <= b <= a <= s.len(),
        a == skip_spaces(s, 0),
        trim_end_pos(s, s.len() as int) == trim_end_pos(s, b),
    ensures
        trimmed(s) == Seq::<char>::empty(),
{
    lemma_skip_spaces_all(s, 0, b);
    lemma_trim_end_le(s, b);
    assert(trim_end_pos(s, s.len() as int) <= b <= a);
    if skip_spaces(s, 0) <= trim_end_pos(s, s.len() as int) {
        assert(s.subrange(skip_spaces(s, 0), trim_end_pos(s, s.len() as int)) =~= Seq::<char>::empty());
    }
}

/// Every position below the first non-space one holds a space.
proof fn lemma_skip_spaces_all(s: Seq<char>, i: int, j: int)
    requires
        0 <= i <= j,
        j <= skip_spaces(s, i),
        skip_spaces(s, i) <= s.len(),
    ensures
        forall|k: int| i <= k < j ==> is_space(s[k]),
    decreases j - i,
{
    if i < j {
        assert(is_space(s[i]));
        lemma_skip_spaces_all(s, i + 1, j);
    }
}

/// The right-trim position never exceeds its starting point.
proof fn lemma_trim_end_le(s: Seq<char>, i: int)
    requires
        0 <= i,
    ensures
        0 <= trim_end_pos(s, i) <= i,
    decreases i,
{
    if i > 0 && is_space(s[i - 1]) {
        lemma_trim_end_le(s, i - 1);
    }
}

/// The trimmed contents of an optional raw text, or the given placeholder
/// where no text could be read.
pub fn text_or_placeholder(content: Option<String>, placeholder: &str) -> (r: String)
    ensures
        content is Some ==> r@ == trimmed(content->0@),
        content is None ==> r@ == trimmed(placeholder@),
{
    match content {
        Some(v) => trim_string(v.as_str()),
        None => trim_string(placeholder),
    }
}

} // verus!
