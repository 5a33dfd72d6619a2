//! The address model: an IPv4 or IPv6 address as plain integer components,
//! with its exact textual form.
//!
//! Resolution produces one address per lookup; the WHOIS query line and one
//! user-facing message embed the address as text. IPv4 renders as four
//! decimal octets joined by `.`; IPv6 renders in the canonical form:
//! lowercase hexadecimal groups without leading zeros joined by `:`, the
//! leftmost longest run of two or more zero groups compressed to `::`, and
//! an IPv4-mapped address in the mixed notation `::ffff:a.b.c.d`.

use vstd::prelude::*;

verus! {

/// An IP address as the resolution step hands it to the WHOIS step:
/// either four IPv4 octets or eight 16-bit IPv6 groups.
#[derive(Clone, Copy, Debug, PartialEq, Eq)]
pub enum IpAddress {
    V4 { octets: [u8; 4] },
    V6 { segments: [u16; 8] },
}

/// The decimal digit character for a value below ten.
pub open spec fn dec_digit_char(d: int) -> char {
    if d == 0 {
        '0'
    } else if d == 1 {
        '1'
    } else if d == 2 {
        '2'
    } else if d == 3 {
        '3'
    } else if d == 4 {
        '4'
    } else if d == 5 {
        '5'
    } else if d == 6 {
        '6'
    } else if d == 7 {
        '7'
    } else if d == 8 {
        '8'
    } else {
        '9'
    }
}

/// The lowercase hexadecimal digit character for a value below sixteen.
pub open spec fn hex_digit_char(d: int) -> char {
    if d < 10 {
        dec_digit_char(d)
    } else if d == 10 {
        'a'
    } else if d == 11 {
        'b'
    } else if d == 12 {
        'c'
    } else if d == 13 {
        'd'
    } else if d == 14 {
        'e'
    } else {
        'f'
    }
}

/// The decimal rendering of an octet, without leading zeros.
pub open spec fn dec_u8_chars(n: u8) -> Seq<char> {
    if n < 10 {
        seq![dec_digit_char(n as int)]
    } else if n < 100 {
        seq![dec_digit_char(n as int / 10), dec_digit_char(n as int % 10)]
    } else {
        seq![
            dec_digit_char(n as int / 100),
            dec_digit_char((n as int / 10) % 10),
            dec_digit_char(n as int % 10),
        ]
    }
}

/// The lowercase hexadecimal rendering of a 16-bit group, without leading zeros.
pub open spec fn hex_u16_chars(n: u16) -> Seq<char> {
    if n < 16 {
        seq![hex_digit_char(n as int)]
    } else if n < 256 {
        seq![hex_digit_char(n as int / 16), hex_digit_char(n as int % 16)]
    } else if n < 4096 {
        seq![
            hex_digit_char(n as int / 256),
            hex_digit_char((n as int / 16) % 16),
            hex_digit_char(n as int % 16),
        ]
    } else {
        seq![
            hex_digit_char(n as int / 4096),
            hex_digit_char((n as int / 256) % 16),
            hex_digit_char((n as int / 16) % 16),
            hex_digit_char(n as int % 16),
        ]
    }
}

/// Dotted-decimal text of four IPv4 octets.
pub open spec fn ipv4_chars(o: Seq<u8>) -> Seq<char>
    recommends
        o.len() == 4,
{
    dec_u8_chars(o[0]) + seq!['.'] + dec_u8_chars(o[1]) + seq!['.'] + dec_u8_chars(o[2])
        + seq!['.'] + dec_u8_chars(o[3])
}

/// One step of the zero-run scan over the groups: `st` is the leftmost
/// longest run of zero groups seen so far (its start and length) followed
/// by the run now open (its start and length); the result is that state
/// advanced past group `seg` at index `i`. A longer run displaces the
/// recorded one only when it grows strictly longer, so ties keep the
/// leftmost run.
pub open spec fn run_step(st: (int, int, int, int), seg: u16, i: int) -> (int, int, int, int) {
    if seg == 0 {
        let cs = if st.3 == 0 {
            i
        } else {
            st.2
        };
        let cl = st.3 + 1;
        if cl > st.1 {
            (cs, cl, cs, cl)
        } else {
            (st.0, st.1, cs, cl)
        }
    } else {
        (st.0, st.1, i, 0)
    }
}

/// The zero-run scan state after the first `n` groups.
pub open spec fn run_scan(s: Seq<u16>, n: int) -> (int, int, int, int)
    decreases n,
{
    if n <= 0 {
        (0, 0, 0, 0)
    } else {
        run_step(run_scan(s, n - 1), s[n - 1], n - 1)
    }
}

/// The leftmost longest run of zero groups: its start and its length.
pub open spec fn zero_run(s: Seq<u16>) -> (int, int) {
    let st = run_scan(s, s.len() as int);
    (st.0, st.1)
}

/// Whether the groups are an IPv4-mapped address: five zero groups, then
/// `ffff`, then the four octets in the last two groups.
pub open spec fn ipv4_mapped(s: Seq<u16>) -> bool
    recommends
        s.len() == 8,
{
    s[0] == 0 && s[1] == 0 && s[2] == 0 && s[3] == 0 && s[4] == 0 && s[5] == 0xffff
}

/// The groups `from .. to` in lowercase hexadecimal, joined by `:`.
pub open spec fn groups_chars(s: Seq<u16>, from: int, to: int) -> Seq<char>
    recommends
        0 <= from,
        to <= s.len(),
    decreases to - from,
{
    if from >= to {
        Seq::empty()
    } else if from + 1 == to {
        hex_u16_chars(s[from])
    } else {
        hex_u16_chars(s[from]) + seq![':'] + groups_chars(s, from + 1, to)
    }
}

/// The canonical text of eight IPv6 groups: an IPv4-mapped address in
/// mixed notation `::ffff:a.b.c.d`; otherwise the groups in lowercase
/// hexadecimal joined by `:`, with the leftmost longest run of two or
/// more zero groups compressed to `::`.
pub open spec fn ipv6_chars(s: Seq<u16>) -> Seq<char>
    recommends
        s.len() == 8,
{
    if ipv4_mapped(s) {
        seq![':', ':', 'f', 'f', 'f', 'f', ':'] + ipv4_chars(
            seq![(s[6] / 256) as u8, (s[6] % 256) as u8, (s[7] / 256) as u8, (s[7] % 256) as u8],
        )
    } else {
        let run = zero_run(s);
        if run.1 >= 2 {
            groups_chars(s, 0, run.0) + seq![':', ':'] + groups_chars(s, run.0 + run.1, 8)
        } else {
            groups_chars(s, 0, 8)
        }
    }
}

/// The textual form of an address, as it appears in the query line and in
/// user-facing messages.
pub open spec fn ip_chars(ip: IpAddress) -> Seq<char> {
    match ip {
        IpAddress::V4 { octets } => ipv4_chars(octets@),
        IpAddress::V6 { segments } => ipv6_chars(segments@),
    }
}

fn dec_digit_str(d: u8) -> (r: &'static str)
    requires
        d < 10,
    ensures
        r@ == seq![dec_digit_char(d as int)],
{
    let r: &'static str = if d == 0 {
        "0"
    } else if d == 1 {
        "1"
    } else if d == 2 {
        "2"
    } else if d == 3 {
        "3"
    } else if d == 4 {
        "4"
    } else if d == 5 {
        "5"
    } else if d == 6 {
        "6"
    } else if d == 7 {
        "7"
    } else if d == 8 {
        "8"
    } else {
        "9"
    };
    proof {
        reveal_strlit("0");
        reveal_strlit("1");
        reveal_strlit("2");
        reveal_strlit("3");
        reveal_strlit("4");
        reveal_strlit("5");
        reveal_strlit("6");
        reveal_strlit("7");
        reveal_strlit("8");
        reveal_strlit("9");
        assert(r@ =~= seq![dec_digit_char(d as int)]);
    }
    r
}

fn hex_digit_str(d: u8) -> (r: &'static str)
    requires
        d < 16,
    ensures
        r@ == seq![hex_digit_char(d as int)],
{
    if d < 10 {
        let r = dec_digit_str(d);
        r
    } else {
        let r: &'static str = if d == 10 {
            "a"
        } else if d == 11 {
            "b"
        } else if d == 12 {
            "c"
        } else if d == 13 {
            "d"
        } else if d == 14 {
            "e"
        } else {
            "f"
        };
        proof {
            reveal_strlit("a");
            reveal_strlit("b");
            reveal_strlit("c");
            reveal_strlit("d");
            reveal_strlit("e");
            reveal_strlit("f");
            assert(r@ =~= seq![hex_digit_char(d as int)]);
        }
        r
    }
}

fn push_dec_u8(s: &mut String, n: u8)
    ensures
        final(s)@ == old(s)@ + dec_u8_chars(n),
{
    if n >= 100 {
        s.append(dec_digit_str(n / 100));
        s.append(dec_digit_str((n / 10) % 10));
        s.append(dec_digit_str(n % 10));
    } else if n >= 10 {
        s.append(dec_digit_str(n / 10));
        s.append(dec_digit_str(n % 10));
    } else {
        s.append(dec_digit_str(n));
    }
    proof {
        assert(s@ =~= old(s)@ + dec_u8_chars(n));
    }
}

fn push_hex_u16(s: &mut String, n: u16)
    ensures
        final(s)@ == old(s)@ + hex_u16_chars(n),
{
    if n >= 4096 {
        s.append(hex_digit_str((n / 4096) as u8));
        s.append(hex_digit_str(((n / 256) % 16) as u8));
        s.append(hex_digit_str(((n / 16) % 16) as u8));
        s.append(hex_digit_str((n % 16) as u8));
    } else if n >= 256 {
        s.append(hex_digit_str((n / 256) as u8));
        s.append(hex_digit_str(((n / 16) % 16) as u8));
        s.append(hex_digit_str((n % 16) as u8));
    } else if n >= 16 {
        s.append(hex_digit_str((n / 16) as u8));
        s.append(hex_digit_str((n % 16) as u8));
    } else {
        s.append(hex_digit_str(n as u8));
    }
    proof {
        assert(s@ =~= old(s)@ + hex_u16_chars(n));
    }
}

/// The leftmost longest run of zero groups, as its start and length.
fn find_zero_run(segments: &[u16; 8]) -> (r: (usize, usize))
    ensures
        r.0 as int == zero_run(segments@).0,
        r.1 as int == zero_run(segments@).1,
        r.0 + r.1 <= 8,
{
    let mut ls: usize = 0;
    let mut ll: usize = 0;
    let mut cs: usize = 0;
    let mut cl: usize = 0;
    let mut i: usize = 0;
    while i < 8
        invariant
            i <= 8,
            (ls as int, ll as int, cs as int, cl as int) == run_scan(segments@, i as int),
            ls + ll <= i,
            cs + cl <= i,
        decreases 8 - i,
    {
        let seg = segments[i];
        if seg == 0 {
            if cl == 0 {
                cs = i;
            }
            cl = cl + 1;
            if cl > ll {
                ls = cs;
                ll = cl;
            }
        } else {
            cs = i;
            cl = 0;
        }
        i += 1;
        proof {
            assert((ls as int, ll as int, cs as int, cl as int) == run_scan(
                segments@,
                i as int,
            ));
        }
    }
    (ls, ll)
}

/// Appends the groups `from .. to` in lowercase hexadecimal, joined by
/// `:`.
fn push_groups(s: &mut String, segments: &[u16; 8], from: usize, to: usize)
    requires
        from <= to <= 8,
    ensures
        final(s)@ == old(s)@ + groups_chars(segments@, from as int, to as int),
    decreases to - from,
{
    if from < to {
        push_hex_u16(s, segments[from]);
        if from + 1 < to {
            s.append(":");
            push_groups(s, segments, from + 1, to);
        }
    }
    proof {
        reveal_strlit(":");
        assert(s@ =~= old(s)@ + groups_chars(segments@, from as int, to as int));
    }
}

impl IpAddress {
    /// The textual form of this address: dotted decimal for IPv4, the
    /// canonical compressed form for IPv6.
    pub fn text(&self) -> (r: String)
        ensures
            r@ == ip_chars(*self),
    {
        match self {
            IpAddress::V4 { octets } => {
                let mut s = String::new();
                push_dec_u8(&mut s, octets[0]);
                s.append(".");
                push_dec_u8(&mut s, octets[1]);
                s.append(".");
                push_dec_u8(&mut s, octets[2]);
                s.append(".");
                push_dec_u8(&mut s, octets[3]);
                proof {
                    reveal_strlit(".");
                    assert(s@ =~= ip_chars(*self));
                }
                s
            },
            IpAddress::V6 { segments } => {
                let mut s = String::new();
                let mapped = segments[0] == 0 && segments[1] == 0 && segments[2] == 0
                    && segments[3] == 0 && segments[4] == 0 && segments[5] == 0xffff;
                if mapped {
                    s.append("::ffff:");
                    push_dec_u8(&mut s, (segments[6] / 256) as u8);
                    s.append(".");
                    push_dec_u8(&mut s, (segments[6] % 256) as u8);
                    s.append(".");
                    push_dec_u8(&mut s, (segments[7] / 256) as u8);
                    s.append(".");
                    push_dec_u8(&mut s, (segments[7] % 256) as u8);
                    proof {
                        reveal_strlit("::ffff:");
                        reveal_strlit(".");
                        assert(s@ =~= ip_chars(*self));
                    }
                } else {
                    let run = find_zero_run(segments);
                    if run.1 >= 2 {
                        push_groups(&mut s, segments, 0, run.0);
                        s.append("::");
                        push_groups(&mut s, segments, run.0 + run.1, 8);
                        proof {
                            reveal_strlit("::");
                            assert(s@ =~= ip_chars(*self));
                        }
                    } else {
                        push_groups(&mut s, segments, 0, 8);
                        proof {
                            assert(s@ =~= ip_chars(*self));
                        }
                    }
                }
                s
            },
        }
    }
}

} // verus!
