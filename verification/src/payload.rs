//! The derived login payload: a JSON object with exactly three keys in fixed
//! order — the password, the onion hostname, and the bare IP addresses
//! extracted from the raw address lines — escaped by hand so that the
//! emitted bytes are a deterministic function of the inputs.

use vstd::prelude::*;
use crate::ansi::push_char;

verus! {

/// The expansion of one character inside a JSON string: backslash, quote,
/// newline, carriage return and tab are escaped, everything else stands as
/// itself.
pub open spec fn esc_char(c: char) -> Seq<char> {
    if c == '\\' {
        seq!['\\', '\\']
    } else if c == '"' {
        seq!['\\', '"']
    } else if c == '\n' {
        seq!['\\', 'n']
    } else if c == '\r' {
        seq!['\\', 'r']
    } else if c == '\t' {
        seq!['\\', 't']
    } else {
        seq![c]
    }
}

/// A text with every character expanded for use inside a JSON string.
pub open spec fn escape_json(s: Seq<char>) -> Seq<char>
    decreases s.len(),
{
    if s.len() == 0 {
        Seq::empty()
    } else {
        esc_char(s[0]) + escape_json(s.drop_first())
    }
}

/// Escaping distributes over appending one character.
proof fn lemma_escape_push(s: Seq<char>, c: char)
    ensures
        escape_json(s.push(c)) == escape_json(s) + esc_char(c),
    decreases s.len(),
{
    if s.len() == 0 {
        assert(s.push(c).drop_first() =~= Seq::<char>::empty());
        assert(escape_json(Seq::<char>::empty()) =~= Seq::<char>::empty());
        assert(s.push(c)[0] == c);
        assert(escape_json(s.push(c)) =~= escape_json(s) + esc_char(c));
    } else {
        assert(s.push(c).drop_first() =~= s.drop_first().push(c));
        lemma_escape_push(s.drop_first(), c);
        assert(escape_json(s.push(c)) =~= escape_json(s) + esc_char(c));
    }
}

/// Escape a text for use inside a JSON string.
pub fn escape_json_string(s: &str) -> (r: String)
    ensures
        r@ == escape_json(s@),
{
    let n = s.unicode_len();
    let mut out = String::new();
    let mut i: usize = 0;
    while i < n
        invariant
            n == s@.len(),
            i <= n,
            out@ == escape_json(s@.take(i as int)),
        decreases n - i,
    {
        let ghost prefix = s@.take(i as int);
        let c = s.get_char(i);
        if c == '\\' {
            push_char(&mut out, '\\');
            push_char(&mut out, '\\');
        } else if c == '"' {
            push_char(&mut out, '\\');
            push_char(&mut out, '"');
        } else if c == '\n' {
            push_char(&mut out, '\\');
            push_char(&mut out, 'n');
        } else if c == '\r' {
            push_char(&mut out, '\\');
            push_char(&mut out, 'r');
        } else if c == '\t' {
            push_char(&mut out, '\\');
            push_char(&mut out, 't');
        } else {
            push_char(&mut out, c);
        }
        proof {
            lemma_escape_push(prefix, c);
            assert(s@.take(i as int + 1) =~= prefix.push(c));
            assert(out@ =~= escape_json(prefix) + esc_char(c));
        }
        i += 1;
    }
    proof {
        assert(s@.take(n as int) =~= s@);
    }
    out
}

/// Whitespace as the tokenizer sees it.
pub open spec fn is_space(c: char) -> bool {
    c == ' ' || c == '\t' || c == '\n' || c == '\r'
}

/// The whitespace-separated tokens of a line from position `i`, with the
/// token under construction in `cur` and the finished ones in `acc`.
pub open spec fn tokens_from(
    s: Seq<char>,
    i: int,
    cur: Seq<char>,
    acc: Seq<Seq<char>>,
) -> Seq<Seq<char>>
    decreases s.len() - i,
{
    if i < 0 || i >= s.len() {
        if cur.len() > 0 {
            acc.push(cur)
        } else {
            acc
        }
    } else if is_space(s[i]) {
        if cur.len() > 0 {
            tokens_from(s, i + 1, Seq::empty(), acc.push(cur))
        } else {
            tokens_from(s, i + 1, cur, acc)
        }
    } else {
        tokens_from(s, i + 1, cur.push(s[i]), acc)
    }
}

/// The whitespace-separated tokens of a line.
pub open spec fn tokens(s: Seq<char>) -> Seq<Seq<char>> {
    tokens_from(s, 0, Seq::empty(), Seq::empty())
}

/// Split a line into its whitespace-separated tokens.
pub fn tokenize(s: &str) -> (r: Vec<String>)
    ensures
        r.deep_view() == tokens(s@),
{
    let n = s.unicode_len();
    let mut toks: Vec<String> = Vec::new();
    let mut cur = String::new();
    let mut i: usize = 0;
    proof {
        assert(toks.deep_view() =~= Seq::<Seq<char>>::empty());
    }
    while i < n
        invariant
            n == s@.len(),
            i <= n,
            tokens_from(s@, i as int, cur@, toks.deep_view()) == tokens(s@),
        decreases n - i,
    {
        let c = s.get_char(i);
        if c == ' ' || c == '\t' || c == '\n' || c == '\r' {
            if !cur.as_str().is_empty() {
                let ghost dv = toks.deep_view();
                let done = cur;
                toks.push(done);
                cur = String::new();
                proof {
                    assert(toks.deep_view() =~= dv.push(done@));
                }
            }
        } else {
            push_char(&mut cur, c);
        }
        i += 1;
    }
    if !cur.as_str().is_empty() {
        let ghost dv = toks.deep_view();
        let done = cur;
        toks.push(done);
        proof {
            assert(toks.deep_view() =~= dv.push(done@));
        }
    }
    toks
}

/// A token that looks like an IP address: it holds a dot or a colon.
pub open spec fn is_addr_token(t: Seq<char>) -> bool {
    t.contains('.') || t.contains(':')
}

/// Position of the first slash in a token from position `i`, or its length.
pub open spec fn slash_pos_from(t: Seq<char>, i: int) -> int
    decreases t.len() - i,
{
    if i < 0 || i >= t.len() {
        t.len() as int
    } else if t[i] == '/' {
        i
    } else {
        slash_pos_from(t, i + 1)
    }
}

/// A token with its CIDR suffix stripped: everything before the first slash.
pub open spec fn strip_cidr(t: Seq<char>) -> Seq<char> {
    t.take(slash_pos_from(t, 0))
}

/// The bare addresses of a token list from position `k`: every token that
/// looks like an address, its CIDR suffix stripped, in order.
pub open spec fn addrs_from(ts: Seq<Seq<char>>, k: int) -> Seq<Seq<char>>
    decreases ts.len() - k,
{
    if k < 0 || k >= ts.len() {
        Seq::empty()
    } else if is_addr_token(ts[k]) {
        seq![strip_cidr(ts[k])] + addrs_from(ts, k + 1)
    } else {
        addrs_from(ts, k + 1)
    }
}

/// The bare addresses of one raw line: its tokens after the interface name
/// and status columns that look like addresses, CIDR suffixes stripped.
pub open spec fn line_addrs(line: Seq<char>) -> Seq<Seq<char>> {
    addrs_from(tokens(line), 2)
}

/// The bare addresses of all raw lines, in order.
pub open spec fn extract_from(lines: Seq<Seq<char>>, li: int) -> Seq<Seq<char>>
    decreases lines.len() - li,
{
    if li < 0 || li >= lines.len() {
        Seq::empty()
    } else {
        line_addrs(lines[li]) + extract_from(lines, li + 1)
    }
}

/// The bare addresses of all raw lines.
pub open spec fn extract_addrs(lines: Seq<Seq<char>>) -> Seq<Seq<char>> {
    extract_from(lines, 0)
}

/// Whether a string slice holds a character.
pub fn str_contains_char(s: &str, c: char) -> (r: bool)
    ensures
        r == s@.contains(c),
{
    let n = s.unicode_len();
    let mut i: usize = 0;
    while i < n
        invariant
            n == s@.len(),
            i <= n,
            forall|k: int| 0 <= k < i ==> s@[k] != c,
        decreases n - i,
    {
        if s.get_char(i) == c {
            proof {
                assert(s@[i as int] == c);
            }
            return true;
        }
        i += 1;
    }
    false
}

/// Strip the CIDR suffix from a token: everything before the first slash.
pub fn strip_cidr_exec(t: &str) -> (r: String)
    ensures
        r@ == strip_cidr(t@),
{
    let n = t.unicode_len();
    let mut j: usize = 0;
    while j < n && t.get_char(j) != '/'
        invariant
            n == t@.len(),
            j <= n,
            slash_pos_from(t@, 0) == slash_pos_from(t@, j as int),
        decreases n - j,
    {
        j += 1;
    }
    let mut out = String::new();
    let mut i: usize = 0;
    while i < j
        invariant
            n == t@.len(),
            j <= n,
            i <= j,
            out@ == t@.take(i as int),
        decreases j - i,
    {
        let ghost prefix = t@.take(i as int);
        push_char(&mut out, t.get_char(i));
        proof {
            assert(t@.take(i as int + 1) =~= prefix.push(t@[i as int]));
        }
        i += 1;
    }
    proof {
        if j < n {
            assert(slash_pos_from(t@, j as int) == j);
        }
    }
    out
}

/// Extract the bare addresses from raw address lines: from each line, the
/// tokens after the interface and status columns that hold a dot or a colon,
/// each cut at its first slash.
pub fn extract_addresses(ip_addrs: &Vec<String>) -> (r: Vec<String>)
    ensures
        r.deep_view() == extract_addrs(ip_addrs.deep_view()),
{
    let mut out: Vec<String> = Vec::new();
    let mut li: usize = 0;
    proof {
        assert(out.deep_view() =~= Seq::<Seq<char>>::empty());
        assert(Seq::<Seq<char>>::empty() + extract_from(ip_addrs.deep_view(), 0)
            =~= extract_from(ip_addrs.deep_view(), 0));
    }
    while li < ip_addrs.len()
        invariant
            li <= ip_addrs.len(),
            out.deep_view() + extract_from(ip_addrs.deep_view(), li as int) == extract_addrs(
                ip_addrs.deep_view(),
            ),
        decreases ip_addrs.len() - li,
    {
        let toks = tokenize(ip_addrs[li].as_str());
        let ghost lv = ip_addrs.deep_view()[li as int];
        proof {
            assert(ip_addrs[li as int]@ == lv);
        }
        let mut k: usize = 2;
        proof {
            if toks.len() < 2 {
                assert(addrs_from(toks.deep_view(), 2) =~= Seq::<Seq<char>>::empty());
            }
            assert(out.deep_view() + addrs_from(toks.deep_view(), 2) + extract_from(
                ip_addrs.deep_view(),
                li as int + 1,
            ) =~= out.deep_view() + extract_from(ip_addrs.deep_view(), li as int));
        }
        while k < toks.len()
            invariant
                2 <= k,
                k <= toks.len() || k == 2,
                toks.deep_view() == tokens(lv),
                out.deep_view() + addrs_from(toks.deep_view(), k as int) + extract_from(
                    ip_addrs.deep_view(),
                    li as int + 1,
                ) == extract_addrs(ip_addrs.deep_view()),
            decreases toks.len() - k,
        {
            let t = &toks[k];
            let ghost dv = out.deep_view();
            let ghost tv = toks.deep_view()[k as int];
            if str_contains_char(t.as_str(), '.') || str_contains_char(t.as_str(), ':') {
                let stripped = strip_cidr_exec(t.as_str());
                proof {
                    assert(stripped@ == strip_cidr(tv));
                }
                out.push(stripped);
                proof {
                    assert(out.deep_view() =~= dv.push(strip_cidr(tv)));
                    assert(dv.push(strip_cidr(tv)) + addrs_from(toks.deep_view(), k as int + 1)
                        =~= dv + addrs_from(toks.deep_view(), k as int));
                }
            }
            k += 1;
        }
        li += 1;
    }
    proof {
        assert(out.deep_view() + extract_from(ip_addrs.deep_view(), ip_addrs.deep_view().len() as int)
            =~= out.deep_view());
    }
    out
}

/// The comma-separated JSON list of the escaped addresses.
pub open spec fn addrs_json(addrs: Seq<Seq<char>>) -> Seq<char>
    decreases addrs.len(),
{
    if addrs.len() == 0 {
        Seq::empty()
    } else if addrs.len() == 1 {
        seq!['"'] + escape_json(addrs[0]) + seq!['"']
    } else {
        addrs_json(addrs.drop_last()) + seq![','] + seq!['"'] + escape_json(addrs.last())
            + seq!['"']
    }
}

/// The derived login payload: a JSON object with the keys `pass`, `tor` and
/// `addrs` in that order, over the escaped password, onion hostname and bare
/// addresses.
pub open spec fn json_payload(
    pass: Seq<char>,
    onion: Seq<char>,
    addrs: Seq<Seq<char>>,
) -> Seq<char> {
    "{\"pass\":\""@ + escape_json(pass) + "\",\"tor\":\""@ + escape_json(onion)
        + "\",\"addrs\":["@ + addrs_json(addrs) + "]}"@
}

/// Build the login payload text for the QR code from the password, the
/// onion hostname and the raw address lines.
pub fn generate_login_json(password: &str, onion: &str, ip_addrs: &Vec<String>) -> (r: String)
    ensures
        r@ == json_payload(password@, onion@, extract_addrs(ip_addrs.deep_view())),
{
    let addrs = extract_addresses(ip_addrs);
    let ghost av = extract_addrs(ip_addrs.deep_view());
    let mut json = String::new();
    json.append("{\"pass\":\"");
    let ep = escape_json_string(password);
    json.append(ep.as_str());
    json.append("\",\"tor\":\"");
    let eo = escape_json_string(onion);
    json.append(eo.as_str());
    json.append("\",\"addrs\":[");
    let ghost head = "{\"pass\":\""@ + escape_json(password@) + "\",\"tor\":\""@ + escape_json(
        onion@,
    ) + "\",\"addrs\":["@;
    proof {
        assert(json@ =~= head + addrs_json(av.take(0)));
        assert(addrs_json(av.take(0)) =~= Seq::<char>::empty());
        assert(json@ =~= head);
    }
    let mut i: usize = 0;
    while i < addrs.len()
        invariant
            addrs.deep_view() == av,
            i <= addrs.len(),
            json@ == head + addrs_json(av.take(i as int)),
        decreases addrs.len() - i,
    {
        if i > 0 {
            json.append(",");
        }
        json.append("\"");
        let ea = escape_json_string(addrs[i].as_str());
        json.append(ea.as_str());
        json.append("\"");
        proof {
            let taken = av.take(i as int + 1);
            assert(taken.drop_last() =~= av.take(i as int));
            assert(taken.last() == av[i as int]);
            assert(addrs[i as int]@ == av[i as int]);
            if i == 0 {
                assert(addrs_json(taken) =~= seq!['"'] + escape_json(av[0]) + seq!['"']);
                assert(","@.len() == 0 || true);
                assert(json@ =~= head + addrs_json(taken)) by {
                    reveal_strlit("\"");
                }
            } else {
                assert(addrs_json(taken) =~= addrs_json(av.take(i as int)) + seq![','] + seq!['"']
                    + escape_json(av[i as int]) + seq!['"']);
                assert(json@ =~= head + addrs_json(taken)) by {
                    reveal_strlit("\"");
                    reveal_strlit(",");
                }
            }
        }
        i += 1;
    }
    json.append("]}");
    proof {
        assert(av.take(av.len() as int) =~= av);
        assert(json@ =~= json_payload(password@, onion@, av));
    }
    json
}


/// Whether `sub` occurs contiguously inside `s`.
pub open spec fn has_substring(s: Seq<char>, sub: Seq<char>) -> bool {
    exists|i: int| 0 <= i <= s.len() - sub.len() && #[trigger] s.subrange(i, i + sub.len()) == sub
}

/// Whether a string slice holds another contiguously.
pub fn str_contains(s: &str, sub: &str) -> (r: bool)
    ensures
        r == has_substring(s@, sub@),
{
    let n = s.unicode_len();
    let m = sub.unicode_len();
    if m > n {
        proof {
            assert(!has_substring(s@, sub@));
        }
        return false;
    }
    if m == 0 {
        proof {
            assert(s@.subrange(0, 0 + sub@.len() as int) =~= sub@);
        }
        return true;
    }
    let mut i: usize = 0;
    while i <= n - m
        invariant
            n == s@.len(),
            m == sub@.len(),
            1 <= m <= n,
            i <= n - m + 1,
            forall|p: int| 0 <= p < i ==> #[trigger] s@.subrange(p, p + m) != sub@,
        decreases n - i,
    {
        let mut k: usize = 0;
        let mut matched = true;
        while k < m
            invariant
                n == s@.len(),
                m == sub@.len(),
                m <= n,
                i <= n - m,
                k <= m,
                matched ==> forall|q: int| 0 <= q < k ==> s@[i + q] == sub@[q],
                !matched ==> s@.subrange(i as int, i + m) != sub@,
            decreases m - k,
        {
            if s.get_char(i + k) != sub.get_char(k) {
                proof {
                    assert(s@.subrange(i as int, i + m)[k as int] == s@[i + k]);
                }
                matched = false;
                k = m;
            } else {
                k += 1;
            }
        }
        if matched {
            proof {
                assert(s@.subrange(i as int, i + m) =~= sub@);
            }
            return true;
        }
        i += 1;
    }
    proof {
        assert forall|p: int| 0 <= p <= s@.len() - sub@.len() implies #[trigger] s@.subrange(
            p,
            p + sub@.len() as int,
        ) != sub@ by {
        }
    }
    false
}

/// The raw address lines kept for display: those that mention an interface
/// that is up and are not the loopback line.
pub open spec fn keep_line(line: Seq<char>) -> bool {
    !has_substring(line, "127.0.0.1"@) && has_substring(line, "UP"@)
}

/// The kept lines from position `i` onward, in order.
pub open spec fn filter_lines_from(lines: Seq<Seq<char>>, i: int) -> Seq<Seq<char>>
    decreases lines.len() - i,
{
    if i < 0 || i >= lines.len() {
        Seq::empty()
    } else if keep_line(lines[i]) {
        seq![lines[i]] + filter_lines_from(lines, i + 1)
    } else {
        filter_lines_from(lines, i + 1)
    }
}

/// Keep the raw output lines of the address-listing command that name an
/// interface that is up, dropping the loopback line.
pub fn filter_address_lines(lines: &Vec<String>) -> (r: Vec<String>)
    ensures
        r.deep_view() == filter_lines_from(lines.deep_view(), 0),
{
    let mut out: Vec<String> = Vec::new();
    let mut i: usize = 0;
    proof {
        assert(out.deep_view() =~= Seq::<Seq<char>>::empty());
        assert(Seq::<Seq<char>>::empty() + filter_lines_from(lines.deep_view(), 0)
            =~= filter_lines_from(lines.deep_view(), 0));
    }
    while i < lines.len()
        invariant
            i <= lines.len(),
            out.deep_view() + filter_lines_from(lines.deep_view(), i as int) == filter_lines_from(
                lines.deep_view(),
                0,
            ),
        decreases lines.len() - i,
    {
        let ghost lv = lines.deep_view()[i as int];
        proof {
            assert(lines@[i as int]@ == lv);
        }
        if !str_contains(lines[i].as_str(), "127.0.0.1") && str_contains(lines[i].as_str(), "UP") {
            let ghost dv = out.deep_view();
            let kept = lines[i].clone();
            out.push(kept);
            proof {
                assert(out.deep_view() =~= dv.push(lv));
                assert(dv.push(lv) + filter_lines_from(lines.deep_view(), i as int + 1)
                    =~= dv + filter_lines_from(lines.deep_view(), i as int));
            }
        }
        i += 1;
    }
    proof {
        assert(out.deep_view() + filter_lines_from(lines.deep_view(), lines.deep_view().len() as int)
            =~= out.deep_view());
    }
    out
}

} // verus!
