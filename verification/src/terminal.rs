//! The terminal fallback's content: the same logical sections as the pixel
//! renderer, as plain text lines.

use vstd::prelude::*;
use crate::ansi::push_char;
use crate::state::DisplayState;

verus! {

/// A horizontal bar of `n` box-drawing characters.
pub open spec fn bar_chars(n: nat) -> Seq<char> {
    Seq::new(n, |i: int| '\u{2500}')
}

/// The terminal rendering of a snapshot, line by line: the credential,
/// network and remote-access sections with blank lines between them, then a
/// separator bar and the footer instruction.
pub open spec fn terminal_lines_spec(
    pass: Seq<char>,
    onion: Seq<char>,
    addrs: Seq<Seq<char>>,
    host: Seq<char>,
) -> Seq<Seq<char>> {
    seq![
        "Login Credentials"@,
        "  Root password: "@ + pass,
        Seq::<char>::empty(),
        "Network Information"@,
    ] + addrs.map_values(|a: Seq<char>| "  "@ + a) + seq![
        Seq::<char>::empty(),
        "Remote Access"@,
        "  Tor Hidden Service: "@ + onion,
        "  Multicast DNS: "@ + host + ".local"@,
        Seq::<char>::empty(),
        bar_chars(80),
        "Press 'Ctrl-C' for console access"@,
    ]
}

/// Build the bar of `n` box-drawing characters.
fn make_bar(n: usize) -> (r: String)
    ensures
        r@ == bar_chars(n as nat),
{
    let mut out = String::new();
    let mut i: usize = 0;
    while i < n
        invariant
            i <= n,
            out@.len() == i,
            forall|k: int| 0 <= k < i ==> out@[k] == '\u{2500}',
        decreases n - i,
    {
        push_char(&mut out, '\u{2500}');
        i += 1;
    }
    proof {
        assert(out@ =~= bar_chars(n as nat));
    }
    out
}

/// Render a snapshot as the terminal's text lines, in print order.
pub fn terminal_lines(state: &DisplayState) -> (r: Vec<String>)
    ensures
        r.deep_view() == terminal_lines_spec(
            state.root_password@,
            state.onion_hostname@,
            state.ip_addrs.deep_view(),
            state.hostname@,
        ),
{
    let ghost addrs = state.ip_addrs.deep_view();
    let ghost goal = terminal_lines_spec(
        state.root_password@,
        state.onion_hostname@,
        addrs,
        state.hostname@,
    );
    let mut out: Vec<String> = Vec::new();
    out.push(String::from_str("Login Credentials"));
    let mut pass_line = String::new();
    pass_line.append("  Root password: ");
    pass_line.append(state.root_password.as_str());
    out.push(pass_line);
    out.push(String::new());
    out.push(String::from_str("Network Information"));
    proof {
        assert(addrs.map_values(|a: Seq<char>| "  "@ + a).take(0) =~= Seq::<Seq<char>>::empty());
        assert(out.deep_view() =~= goal.take(4));
    }
    let mut i: usize = 0;
    while i < state.ip_addrs.len()
        invariant
            addrs == state.ip_addrs.deep_view(),
            goal == terminal_lines_spec(
                state.root_password@,
                state.onion_hostname@,
                addrs,
                state.hostname@,
            ),
            i <= addrs.len(),
            out.deep_view() == goal.take(4 + i as int),
        decreases addrs.len() - i,
    {
        let mut line = String::new();
        line.append("  ");
        line.append(state.ip_addrs[i].as_str());
        proof {
            assert(state.ip_addrs@[i as int]@ == addrs[i as int]);
            assert(goal[4 + i as int] == "  "@ + addrs[i as int]);
        }
        let ghost before = out.deep_view();
        out.push(line);
        proof {
            assert(out.deep_view() =~= before.push("  "@ + addrs[i as int]));
            assert(out.deep_view() =~= goal.take(4 + i as int + 1));
        }
        i += 1;
    }
    let ghost b0 = out.deep_view();
    out.push(String::new());
    proof {
        assert(out.deep_view() =~= b0.push(Seq::<char>::empty()));
    }
    let ghost b1 = out.deep_view();
    out.push(String::from_str("Remote Access"));
    proof {
        assert(out.deep_view() =~= b1.push("Remote Access"@));
    }
    let mut tor_line = String::new();
    tor_line.append("  Tor Hidden Service: ");
    tor_line.append(state.onion_hostname.as_str());
    let ghost b2 = out.deep_view();
    let ghost torv = tor_line@;
    out.push(tor_line);
    proof {
        assert(out.deep_view() =~= b2.push(torv));
    }
    let mut dns_line = String::new();
    dns_line.append("  Multicast DNS: ");
    dns_line.append(state.hostname.as_str());
    dns_line.append(".local");
    let ghost b3 = out.deep_view();
    let ghost dnsv = dns_line@;
    out.push(dns_line);
    proof {
        assert(out.deep_view() =~= b3.push(dnsv));
    }
    let ghost b4 = out.deep_view();
    out.push(String::new());
    proof {
        assert(out.deep_view() =~= b4.push(Seq::<char>::empty()));
    }
    let ghost b5 = out.deep_view();
    out.push(make_bar(80));
    proof {
        assert(out.deep_view() =~= b5.push(bar_chars(80)));
    }
    let ghost b6 = out.deep_view();
    out.push(String::from_str("Press 'Ctrl-C' for console access"));
    proof {
        assert(out.deep_view() =~= b6.push("Press 'Ctrl-C' for console access"@));
        assert(goal.len() == 11 + addrs.len());
        assert(addrs.map_values(|a: Seq<char>| "  "@ + a).len() == addrs.len());
        assert(out.deep_view() =~= goal);
    }
    out
}

} // verus!
