//! Decomposing a raw address line into colored runs: a small state machine
//! that recognizes ANSI SGR escape sequences (`ESC [ <code> m`) and maps
//! foreground color codes to a fixed RGB palette.

use vstd::prelude::*;
use crate::Color;

verus! {

/// A colored run of text, produced by parsing the escape sequences out of a
/// raw line.
pub struct TextSegment {
    pub text: String,
    pub color: Color,
}

/// A segment as its mathematical value: its characters and its color.
pub open spec fn seg_view(t: TextSegment) -> (Seq<char>, Color) {
    (t.text@, t.color)
}

/// A segment list as its mathematical value.
pub open spec fn segs_view(v: Seq<TextSegment>) -> Seq<(Seq<char>, Color)> {
    v.map_values(|t: TextSegment| seg_view(t))
}

/// Where the parser stands: in plain text, just after an escape character,
/// or inside an SGR code.
#[derive(Clone, Copy, Debug, PartialEq, Eq, Structural)]
pub enum SgrMode {
    Normal,
    SeenEsc,
    InCode,
}

/// The fixed palette: what an SGR code selects, given the color currently in
/// effect; an unrecognized code keeps the current color. The bold codes map
/// to white, as does reset.
pub open spec fn sgr_color(code: Seq<char>, current: Color) -> Color {
    if code == "0"@ || code == "00"@ || code == "1"@ || code == "01"@ || code == "37"@
        || code == "1;37"@ {
        Color { r: 255, g: 255, b: 255 }
    } else if code == "30"@ {
        Color { r: 0, g: 0, b: 0 }
    } else if code == "31"@ || code == "1;31"@ {
        Color { r: 255, g: 85, b: 85 }
    } else if code == "32"@ || code == "1;32"@ {
        Color { r: 85, g: 255, b: 85 }
    } else if code == "33"@ || code == "1;33"@ {
        Color { r: 255, g: 255, b: 85 }
    } else if code == "34"@ || code == "1;34"@ {
        Color { r: 85, g: 85, b: 255 }
    } else if code == "35"@ || code == "1;35"@ {
        Color { r: 255, g: 85, b: 255 }
    } else if code == "36"@ || code == "1;36"@ {
        Color { r: 85, g: 255, b: 255 }
    } else {
        current
    }
}

/// One step of the parser per character, from position `i` in state
/// `(mode, code, cur, col)` with the segments in `acc` already produced:
/// plain characters extend the current run; `ESC [` closes it; characters up
/// to the next `m` form the code that selects the color of the next run. An
/// escape character not followed by `[` is ordinary text, and an unfinished
/// code at the end of the line is consumed without producing a run.
pub open spec fn parse_from(
    s: Seq<char>,
    i: int,
    mode: SgrMode,
    code: Seq<char>,
    cur: Seq<char>,
    col: Color,
    acc: Seq<(Seq<char>, Color)>,
) -> Seq<(Seq<char>, Color)>
    decreases s.len() - i,
{
    if i < 0 || i >= s.len() {
        match mode {
            SgrMode::SeenEsc => acc.push((cur.push('\x1b'), col)),
            _ => if cur.len() > 0 {
                acc.push((cur, col))
            } else {
                acc
            },
        }
    } else {
        let c = s[i];
        match mode {
            SgrMode::Normal => if c == '\x1b' {
                parse_from(s, i + 1, SgrMode::SeenEsc, code, cur, col, acc)
            } else {
                parse_from(s, i + 1, SgrMode::Normal, code, cur.push(c), col, acc)
            },
            SgrMode::SeenEsc => if c == '[' {
                let acc2 = if cur.len() > 0 {
                    acc.push((cur, col))
                } else {
                    acc
                };
                parse_from(s, i + 1, SgrMode::InCode, Seq::empty(), Seq::empty(), col, acc2)
            } else if c == '\x1b' {
                parse_from(s, i + 1, SgrMode::SeenEsc, code, cur.push('\x1b'), col, acc)
            } else {
                parse_from(s, i + 1, SgrMode::Normal, code, cur.push('\x1b').push(c), col, acc)
            },
            SgrMode::InCode => if c == 'm' {
                parse_from(s, i + 1, SgrMode::Normal, Seq::empty(), cur, sgr_color(code, col), acc)
            } else {
                parse_from(s, i + 1, SgrMode::InCode, code.push(c), cur, col, acc)
            },
        }
    }
}

/// The colored runs of a raw line: parsing starts in plain text with white
/// in effect.
pub open spec fn parse_colored_spec(s: Seq<char>) -> Seq<(Seq<char>, Color)> {
    parse_from(s, 0, SgrMode::Normal, Seq::empty(), Seq::empty(), Color { r: 255, g: 255, b: 255 }, Seq::empty())
}

/// Relies on `String::push`: appends exactly one character.
#[verifier::external_body]
pub(crate) fn push_char(s: &mut String, c: char)
    ensures
        final(s)@ == old(s)@.push(c),
{
    s.push(c);
}

/// Compare two string slices character by character.
pub fn str_eq(a: &str, b: &str) -> (r: bool)
    ensures
        r == (a@ == b@),
{
    let na = a.unicode_len();
    let nb = b.unicode_len();
    if na != nb {
        return false;
    }
    let mut i: usize = 0;
    while i < na
        invariant
            na == a@.len(),
            na == b@.len(),
            i <= na,
            forall|k: int| 0 <= k < i ==> a@[k] == b@[k],
        decreases na - i,
    {
        if a.get_char(i) != b.get_char(i) {
            return false;
        }
        i += 1;
    }
    proof {
        assert(a@ =~= b@);
    }
    true
}

/// Map an SGR code to its palette color, given the color currently in
/// effect.
fn sgr_color_exec(code: &str, current: Color) -> (c: Color)
    ensures
        c == sgr_color(code@, current),
{
    if str_eq(code, "0") || str_eq(code, "00") || str_eq(code, "1") || str_eq(code, "01")
        || str_eq(code, "37") || str_eq(code, "1;37") {
        Color { r: 255, g: 255, b: 255 }
    } else if str_eq(code, "30") {
        Color { r: 0, g: 0, b: 0 }
    } else if str_eq(code, "31") || str_eq(code, "1;31") {
        Color { r: 255, g: 85, b: 85 }
    } else if str_eq(code, "32") || str_eq(code, "1;32") {
        Color { r: 85, g: 255, b: 85 }
    } else if str_eq(code, "33") || str_eq(code, "1;33") {
        Color { r: 255, g: 255, b: 85 }
    } else if str_eq(code, "34") || str_eq(code, "1;34") {
        Color { r: 85, g: 85, b: 255 }
    } else if str_eq(code, "35") || str_eq(code, "1;35") {
        Color { r: 255, g: 85, b: 255 }
    } else if str_eq(code, "36") || str_eq(code, "1;36") {
        Color { r: 85, g: 255, b: 255 }
    } else {
        current
    }
}

/// Parse the ANSI SGR escape sequences out of a raw line, yielding its
/// colored runs in order.
pub fn parse_colored_text(text: &str) -> (segments: Vec<TextSegment>)
    ensures
        segs_view(segments@) == parse_colored_spec(text@),
{
    let n = text.unicode_len();
    let mut segments: Vec<TextSegment> = Vec::new();
    let mut cur = String::new();
    let mut code = String::new();
    let mut mode = SgrMode::Normal;
    let mut col = Color { r: 255, g: 255, b: 255 };
    let mut i: usize = 0;
    proof {
        assert(segs_view(segments@) =~= Seq::<(Seq<char>, Color)>::empty());
    }
    while i < n
        invariant
            n == text@.len(),
            i <= n,
            parse_from(text@, i as int, mode, code@, cur@, col, segs_view(segments@))
                == parse_colored_spec(text@),
        decreases n - i,
    {
        let c = text.get_char(i);
        match mode {
            SgrMode::Normal => {
                if c == '\x1b' {
                    mode = SgrMode::SeenEsc;
                } else {
                    push_char(&mut cur, c);
                }
            },
            SgrMode::SeenEsc => {
                if c == '[' {
                    if !cur.as_str().is_empty() {
                        let done = TextSegment { text: cur, color: col };
                        proof {
                            assert(segs_view(segments@.push(done)) =~= segs_view(segments@).push(
                                seg_view(done),
                            ));
                        }
                        segments.push(done);
                        cur = String::new();
                    }
                    code = String::new();
                    mode = SgrMode::InCode;
                    proof {
                        if cur@.len() == 0 {
                            assert(cur@ =~= Seq::<char>::empty());
                        }
                    }
                } else if c == '\x1b' {
                    push_char(&mut cur, '\x1b');
                } else {
                    push_char(&mut cur, '\x1b');
                    push_char(&mut cur, c);
                    mode = SgrMode::Normal;
                }
            },
            SgrMode::InCode => {
                if c == 'm' {
                    col = sgr_color_exec(code.as_str(), col);
                    code = String::new();
                    mode = SgrMode::Normal;
                } else {
                    push_char(&mut code, c);
                }
            },
        }
        i += 1;
    }
    match mode {
        SgrMode::SeenEsc => {
            push_char(&mut cur, '\x1b');
            let done = TextSegment { text: cur, color: col };
            proof {
                assert(segs_view(segments@.push(done)) =~= segs_view(segments@).push(
                    seg_view(done),
                ));
            }
            segments.push(done);
        },
        _ => {
            if !cur.as_str().is_empty() {
                let done = TextSegment { text: cur, color: col };
                proof {
                    assert(segs_view(segments@.push(done)) =~= segs_view(segments@).push(
                        seg_view(done),
                    ));
                }
                segments.push(done);
            }
        },
    }
    segments
}


/// Combined character count of a segment list.
pub open spec fn total_chars(segs: Seq<(Seq<char>, Color)>) -> int
    decreases segs.len(),
{
    if segs.len() == 0 {
        0
    } else {
        total_chars(segs.drop_last()) + segs.last().0.len()
    }
}

/// Each parsed segment is nonempty, and the segments together hold no more
/// characters than the still-unread input plus the parser's running state.
proof fn lemma_parse_bounds(
    s: Seq<char>,
    i: int,
    mode: SgrMode,
    code: Seq<char>,
    cur: Seq<char>,
    col: Color,
    acc: Seq<(Seq<char>, Color)>,
)
    requires
        0 <= i,
        forall|k: int| 0 <= k < acc.len() ==> #[trigger] acc[k].0.len() >= 1,
    ensures
        ({
            let r = parse_from(s, i, mode, code, cur, col, acc);
            let budget = if i >= s.len() {
                0
            } else {
                s.len() - i
            };
            let extra: int = if mode is SeenEsc {
                1
            } else {
                0
            };
            &&& forall|k: int| 0 <= k < r.len() ==> #[trigger] r[k].0.len() >= 1
            &&& total_chars(r) <= total_chars(acc) + cur.len() + extra + budget
        }),
    decreases s.len() - i,
{
    if i >= s.len() {
        match mode {
            SgrMode::SeenEsc => {
                assert(total_chars(acc.push((cur.push('\x1b'), col))) == total_chars(acc)
                    + cur.len() + 1) by {
                    assert(acc.push((cur.push('\x1b'), col)).drop_last() =~= acc);
                }
            },
            _ => {
                if cur.len() > 0 {
                    assert(total_chars(acc.push((cur, col))) == total_chars(acc) + cur.len()) by {
                        assert(acc.push((cur, col)).drop_last() =~= acc);
                    }
                }
            },
        }
    } else {
        let c = s[i];
        match mode {
            SgrMode::Normal => if c == '\x1b' {
                lemma_parse_bounds(s, i + 1, SgrMode::SeenEsc, code, cur, col, acc);
            } else {
                lemma_parse_bounds(s, i + 1, SgrMode::Normal, code, cur.push(c), col, acc);
            },
            SgrMode::SeenEsc => if c == '[' {
                let acc2 = if cur.len() > 0 {
                    acc.push((cur, col))
                } else {
                    acc
                };
                if cur.len() > 0 {
                    assert(total_chars(acc.push((cur, col))) == total_chars(acc) + cur.len()) by {
                        assert(acc.push((cur, col)).drop_last() =~= acc);
                    }
                }
                lemma_parse_bounds(s, i + 1, SgrMode::InCode, Seq::empty(), Seq::empty(), col, acc2);
            } else if c == '\x1b' {
                lemma_parse_bounds(s, i + 1, SgrMode::SeenEsc, code, cur.push('\x1b'), col, acc);
            } else {
                lemma_parse_bounds(s, i + 1, SgrMode::Normal, code, cur.push('\x1b').push(c), col, acc);
            },
            SgrMode::InCode => if c == 'm' {
                lemma_parse_bounds(s, i + 1, SgrMode::Normal, Seq::empty(), cur, sgr_color(code, col), acc);
            } else {
                lemma_parse_bounds(s, i + 1, SgrMode::InCode, code.push(c), cur, col, acc);
            },
        }
    }
}

/// A list of nonempty segments has no more segments than characters.
proof fn lemma_count_le_total(segs: Seq<(Seq<char>, Color)>)
    requires
        forall|k: int| 0 <= k < segs.len() ==> #[trigger] segs[k].0.len() >= 1,
    ensures
        segs.len() <= total_chars(segs),
        total_chars(segs) >= 0,
    decreases segs.len(),
{
    if segs.len() > 0 {
        lemma_count_le_total(segs.drop_last());
    }
}

/// The colored runs of a line are each nonempty, and together they hold no
/// more characters than the line; so there are no more runs than characters.
pub proof fn lemma_parse_colored_bounds(s: Seq<char>)
    ensures
        forall|k: int| 0 <= k < parse_colored_spec(s).len() ==> #[trigger] parse_colored_spec(
            s,
        )[k].0.len() >= 1,
        0 <= total_chars(parse_colored_spec(s)) <= s.len(),
        parse_colored_spec(s).len() <= s.len(),
{
    lemma_parse_bounds(
        s,
        0,
        SgrMode::Normal,
        Seq::empty(),
        Seq::empty(),
        Color { r: 255, g: 255, b: 255 },
        Seq::empty(),
    );
    lemma_count_le_total(parse_colored_spec(s));
}

} // verus!
