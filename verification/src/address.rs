//! Network addresses and their textual grammar.
//!
//! An address is held as plain integers: an IPv4 address as its 32-bit
//! value, an IPv6 address as its 128-bit value. The parsers define the
//! accepted text exactly: dotted-quad decimal octets for IPv4 (no leading
//! zeros, each at most 255), and for IPv6 colon-separated groups of at most
//! four hex digits with at most one `::` elision and an optional embedded
//! dotted-quad tail.

use vstd::prelude::*;

verus! {

/// A validated network address, immutable once loaded into the target pool.
/// An IPv4 address is its 32-bit value; an IPv6 address is its eight 16-bit
/// groups, most significant first.
#[derive(Clone, Copy, PartialEq, Eq, Structural, Debug)]
pub enum Address {
    V4(u32),
    V6(u16, u16, u16, u16, u16, u16, u16, u16),
}

impl Address {
    /// The raw-socket transport accepts only IPv4: an IPv6 target is the
    /// unsupported-address case and yields no raw-socket destination.
    pub fn ipv4(&self) -> (r: Option<u32>)
        ensures
            r == (match *self {
                Address::V4(x) => Some(x),
                Address::V6(..) => None::<u32>,
            }),
    {
        match self {
            Address::V4(x) => Some(*x),
            Address::V6(..) => None,
        }
    }
}

pub open spec fn is_ascii_digit(b: u8) -> bool {
    0x30 <= b <= 0x39
}

/// Index just past the run of decimal digits starting at `i`.
pub open spec fn digit_run_end(s: Seq<u8>, i: int) -> int
    decreases s.len() - i,
{
    if i < 0 || i >= s.len() || !is_ascii_digit(s[i]) {
        i
    } else {
        digit_run_end(s, i + 1)
    }
}

/// Decimal value of the digits `s[i..j)`.
pub open spec fn decimal_value(s: Seq<u8>, i: int, j: int) -> int
    decreases j - i,
{
    if j <= i {
        0
    } else {
        decimal_value(s, i, j - 1) * 10 + (s[j - 1] - 0x30)
    }
}

/// One decimal octet read greedily at `i`: one to three digits, no leading
/// zero, value at most 255. Yields the value and the index just past it.
pub open spec fn spec_parse_octet(s: Seq<u8>, i: int) -> Option<(u8, int)> {
    let j = digit_run_end(s, i);
    if j == i {
        None
    } else if j - i > 3 {
        None
    } else if j - i > 1 && s[i] == 0x30 {
        None
    } else if decimal_value(s, i, j) > 255 {
        None
    } else {
        Some((decimal_value(s, i, j) as u8, j))
    }
}

/// A dotted quad read at `i`: four octets separated by `.`. Yields the
/// 32-bit value (first octet most significant) and the index just past it.
pub open spec fn spec_parse_ipv4_at(s: Seq<u8>, i: int) -> Option<(u32, int)> {
    match spec_parse_octet(s, i) {
        None => None,
        Some((a, i1)) => if !(i1 < s.len() && s[i1] == 0x2e) {
            None
        } else {
            match spec_parse_octet(s, i1 + 1) {
                None => None,
                Some((b, i2)) => if !(i2 < s.len() && s[i2] == 0x2e) {
                    None
                } else {
                    match spec_parse_octet(s, i2 + 1) {
                        None => None,
                        Some((c, i3)) => if !(i3 < s.len() && s[i3] == 0x2e) {
                            None
                        } else {
                            match spec_parse_octet(s, i3 + 1) {
                                None => None,
                                Some((d, i4)) => Some(
                                    (
                                        (a * 0x1000000 + b * 0x10000 + c * 0x100 + d) as u32,
                                        i4,
                                    ),
                                ),
                            }
                        },
                    }
                },
            }
        },
    }
}

/// The IPv4 grammar over a whole string: a dotted quad and nothing else.
pub open spec fn spec_parse_ipv4(s: Seq<u8>) -> Option<u32> {
    match spec_parse_ipv4_at(s, 0) {
        None => None,
        Some((v, j)) => if j == s.len() {
            Some(v)
        } else {
            None
        },
    }
}

/// The run of digits starting at `i` ends within the text, no earlier than
/// `i`.
pub proof fn lemma_digit_run_end_bounds(s: Seq<u8>, i: int)
    requires
        0 <= i <= s.len(),
    ensures
        i <= digit_run_end(s, i) <= s.len(),
    decreases s.len() - i,
{
    if i < s.len() && is_ascii_digit(s[i]) {
        lemma_digit_run_end_bounds(s, i + 1);
    }
}

/// Every byte inside a digit run is a digit.
pub proof fn lemma_digit_run_chars(s: Seq<u8>, i: int)
    requires
        0 <= i <= s.len(),
    ensures
        forall|k: int| i <= k < digit_run_end(s, i) ==> is_ascii_digit(s[k]),
    decreases s.len() - i,
{
    if i < s.len() && is_ascii_digit(s[i]) {
        lemma_digit_run_chars(s, i + 1);
        lemma_digit_run_end_bounds(s, i + 1);
    }
}

fn scan_digit_run(s: &[u8], i: usize) -> (j: usize)
    requires
        i <= s@.len(),
    ensures
        j == digit_run_end(s@, i as int),
        i <= j <= s@.len(),
{
    let len: usize = s.len();
    let mut j: usize = i;
    while j < len && s[j] >= 0x30 && s[j] <= 0x39
        invariant
            i <= j <= len,
            len == s@.len(),
            digit_run_end(s@, i as int) == digit_run_end(s@, j as int),
        decreases len - j,
    {
        j = j + 1;
    }
    j
}

fn parse_octet(s: &[u8], i: usize) -> (r: Option<(u8, usize)>)
    requires
        i <= s@.len(),
    ensures
        match r {
            Some((v, j)) => spec_parse_octet(s@, i as int) == Some((v, j as int)) && i < j
                <= s@.len(),
            None => spec_parse_octet(s@, i as int) is None,
        },
{
    let j = scan_digit_run(s, i);
    if j == i {
        return None;
    }
    if j - i > 3 {
        return None;
    }
    if j - i > 1 && s[i] == 0x30 {
        return None;
    }
    proof {
        lemma_digit_run_chars(s@, i as int);
    }
    let v: u32 = if j - i == 1 {
        (s[i] - 0x30) as u32
    } else if j - i == 2 {
        (s[i] - 0x30) as u32 * 10 + (s[i + 1] - 0x30) as u32
    } else {
        (s[i] - 0x30) as u32 * 100 + (s[i + 1] - 0x30) as u32 * 10 + (s[i + 2] - 0x30) as u32
    };
    proof {
        let ii = i as int;
        let jj = j as int;
        assert(decimal_value(s@, ii, ii) == 0);
        assert(decimal_value(s@, ii, ii + 1) == s@[ii] - 0x30);
        if jj >= ii + 2 {
            assert(decimal_value(s@, ii, ii + 2) == decimal_value(s@, ii, ii + 1) * 10 + (s@[ii
                + 1] - 0x30));
        }
        if jj >= ii + 3 {
            assert(decimal_value(s@, ii, ii + 3) == decimal_value(s@, ii, ii + 2) * 10 + (s@[ii
                + 2] - 0x30));
        }
        assert(v == decimal_value(s@, ii, jj));
    }
    if v > 255 {
        return None;
    }
    Some(((v as u8), j))
}

fn parse_ipv4_at(s: &[u8], i: usize) -> (r: Option<(u32, usize)>)
    requires
        i <= s@.len(),
    ensures
        match r {
            Some((v, j)) => spec_parse_ipv4_at(s@, i as int) == Some((v, j as int)) && i < j
                <= s@.len(),
            None => spec_parse_ipv4_at(s@, i as int) is None,
        },
{
    let (a, i1) = match parse_octet(s, i) {
        None => return None,
        Some(p) => p,
    };
    if !(i1 < s.len() && s[i1] == 0x2e) {
        return None;
    }
    let (b, i2) = match parse_octet(s, i1 + 1) {
        None => return None,
        Some(p) => p,
    };
    if !(i2 < s.len() && s[i2] == 0x2e) {
        return None;
    }
    let (c, i3) = match parse_octet(s, i2 + 1) {
        None => return None,
        Some(p) => p,
    };
    if !(i3 < s.len() && s[i3] == 0x2e) {
        return None;
    }
    let (d, i4) = match parse_octet(s, i3 + 1) {
        None => return None,
        Some(p) => p,
    };
    let v: u32 = (a as u32) * 0x1000000 + (b as u32) * 0x10000 + (c as u32) * 0x100 + (d as u32);
    Some((v, i4))
}

pub open spec fn is_hex_digit(b: u8) -> bool {
    is_ascii_digit(b) || 0x41 <= b <= 0x46 || 0x61 <= b <= 0x66
}

pub open spec fn hex_digit_value(b: u8) -> int {
    if is_ascii_digit(b) {
        b - 0x30
    } else if 0x41 <= b <= 0x46 {
        b - 0x41 + 10
    } else {
        b - 0x61 + 10
    }
}

/// Index just past the run of hex digits starting at `i`.
pub open spec fn hex_run_end(s: Seq<u8>, i: int) -> int
    decreases s.len() - i,
{
    if i < 0 || i >= s.len() || !is_hex_digit(s[i]) {
        i
    } else {
        hex_run_end(s, i + 1)
    }
}

/// Hexadecimal value of the digits `s[i..j)`.
pub open spec fn hex_value(s: Seq<u8>, i: int, j: int) -> int
    decreases j - i,
{
    if j <= i {
        0
    } else {
        hex_value(s, i, j - 1) * 16 + hex_digit_value(s[j - 1])
    }
}

/// The longest list of colon-separated IPv6 pieces starting at `i`, at most
/// `max` groups. A piece is one to four hex digits, or, as the final piece
/// ending the text and worth two groups, a dotted quad. Yields the group
/// values and the index just past the last piece (a separator that is not
/// followed by another piece is not consumed).
pub open spec fn spec_parse_groups(s: Seq<u8>, i: int, max: int) -> (Seq<u16>, int)
    decreases max, 1int,
{
    if max <= 0 {
        (Seq::<u16>::empty(), i)
    } else {
        match spec_parse_ipv4_at(s, i) {
            Some((v, e)) => if e == s.len() && max >= 2 {
                (seq![(v / 0x10000) as u16, (v % 0x10000) as u16], e)
            } else {
                spec_parse_hex_groups(s, i, max)
            },
            None => spec_parse_hex_groups(s, i, max),
        }
    }
}

/// The hex-piece arm of `spec_parse_groups`.
pub open spec fn spec_parse_hex_groups(s: Seq<u8>, i: int, max: int) -> (Seq<u16>, int)
    decreases max, 0int,
{
    if max <= 0 {
        (Seq::<u16>::empty(), i)
    } else {
        let j = hex_run_end(s, i);
        if j == i || j - i > 4 {
            (Seq::<u16>::empty(), i)
        } else {
            let g = hex_value(s, i, j) as u16;
            if j + 1 < s.len() && s[j] == 0x3a && s[j + 1] != 0x3a {
                let r = spec_parse_groups(s, j + 1, max - 1);
                if r.0.len() == 0 {
                    (seq![g], j)
                } else {
                    (seq![g] + r.0, r.1)
                }
            } else {
                (seq![g], j)
            }
        }
    }
}

/// The groups parse stays within the text and within its group budget.
pub proof fn lemma_groups_bounds(s: Seq<u8>, i: int, max: int)
    requires
        0 <= i <= s.len(),
    ensures
        ({
            let (gs, e) = spec_parse_groups(s, i, max);
            i <= e <= s.len() && (max >= 0 ==> gs.len() <= max) && (max <= 0 ==> gs.len() == 0)
                && (gs.len() == 0 ==> e == i)
        }),
    decreases max, 1int,
{
    if max > 0 {
        match spec_parse_ipv4_at(s, i) {
            Some((v, e)) => {
                if e == s.len() && max >= 2 {
                    lemma_ipv4_at_bounds(s, i);
                } else {
                    lemma_hex_groups_bounds(s, i, max);
                }
            },
            None => {
                lemma_hex_groups_bounds(s, i, max);
            },
        }
    }
}

/// As `lemma_groups_bounds`, for the hex-piece arm.
pub proof fn lemma_hex_groups_bounds(s: Seq<u8>, i: int, max: int)
    requires
        0 <= i <= s.len(),
    ensures
        ({
            let (gs, e) = spec_parse_hex_groups(s, i, max);
            i <= e <= s.len() && (max >= 0 ==> gs.len() <= max) && (max <= 0 ==> gs.len() == 0)
                && (gs.len() == 0 ==> e == i)
        }),
    decreases max, 0int,
{
    if max > 0 {
        lemma_hex_run_end_bounds(s, i);
        let j = hex_run_end(s, i);
        if !(j == i || j - i > 4) {
            if j + 1 < s.len() && s[j] == 0x3a && s[j + 1] != 0x3a {
                lemma_groups_bounds(s, j + 1, max - 1);
            }
        }
    }
}

/// A successful dotted-quad parse moves forward and stays within the text.
pub proof fn lemma_ipv4_at_bounds(s: Seq<u8>, i: int)
    requires
        0 <= i <= s.len(),
    ensures
        ({
            match spec_parse_ipv4_at(s, i) {
                Some((v, e)) => i < e <= s.len(),
                None => true,
            }
        }),
{
    lemma_digit_run_end_bounds(s, i);
    if spec_parse_octet(s, i) is Some {
        let (a, i1) = spec_parse_octet(s, i)->Some_0;
        if i1 < s.len() && s[i1] == 0x2e {
            lemma_digit_run_end_bounds(s, i1 + 1);
            if spec_parse_octet(s, i1 + 1) is Some {
                let (b, i2) = spec_parse_octet(s, i1 + 1)->Some_0;
                if i2 < s.len() && s[i2] == 0x2e {
                    lemma_digit_run_end_bounds(s, i2 + 1);
                    if spec_parse_octet(s, i2 + 1) is Some {
                        let (c, i3) = spec_parse_octet(s, i2 + 1)->Some_0;
                        if i3 < s.len() && s[i3] == 0x2e {
                            lemma_digit_run_end_bounds(s, i3 + 1);
                        }
                    }
                }
            }
        }
    }
}

/// The run of hex digits starting at `i` ends within the text, and its
/// bytes are hex digits.
pub proof fn lemma_hex_run_end_bounds(s: Seq<u8>, i: int)
    requires
        0 <= i <= s.len(),
    ensures
        i <= hex_run_end(s, i) <= s.len(),
        forall|k: int| i <= k < hex_run_end(s, i) ==> is_hex_digit(s[k]),
    decreases s.len() - i,
{
    if i < s.len() && is_hex_digit(s[i]) {
        lemma_hex_run_end_bounds(s, i + 1);
    }
}

/// The IPv6 grammar over a whole string: eight 16-bit groups, written as
/// colon-separated pieces with at most one `::` eliding the zero groups in
/// the middle, and optionally a dotted quad as the last two groups. Yields
/// the eight group values, most significant first.
pub open spec fn spec_parse_ipv6(s: Seq<u8>) -> Option<Seq<u16>> {
    if s.len() >= 2 && s[0] == 0x3a && s[1] == 0x3a {
        let (tail, e) = spec_parse_groups(s, 2, 7);
        if e == s.len() {
            Some(Seq::new((8 - tail.len()) as nat, |k: int| 0u16) + tail)
        } else {
            None
        }
    } else {
        let (head, e) = spec_parse_groups(s, 0, 8);
        if head.len() == 0 {
            None
        } else if e == s.len() {
            if head.len() == 8 {
                Some(head)
            } else {
                None
            }
        } else if e + 1 < s.len() && s[e] == 0x3a && s[e + 1] == 0x3a {
            let (tail, e2) = spec_parse_groups(s, e + 2, 7 - head.len());
            if e2 == s.len() && head.len() + tail.len() <= 7 {
                Some(head + Seq::new((8 - head.len() - tail.len()) as nat, |k: int| 0u16) + tail)
            } else {
                None
            }
        } else {
            None
        }
    }
}

fn scan_hex_run(s: &[u8], i: usize) -> (j: usize)
    requires
        i <= s@.len(),
    ensures
        j == hex_run_end(s@, i as int),
        i <= j <= s@.len(),
{
    let len: usize = s.len();
    let mut j: usize = i;
    while j < len && (s[j] >= 0x30 && s[j] <= 0x39 || s[j] >= 0x41 && s[j] <= 0x46 || s[j] >= 0x61
        && s[j] <= 0x66)
        invariant
            i <= j <= len,
            len == s@.len(),
            hex_run_end(s@, i as int) == hex_run_end(s@, j as int),
        decreases len - j,
    {
        j = j + 1;
    }
    j
}

fn hex_digit(b: u8) -> (v: u8)
    requires
        is_hex_digit(b),
    ensures
        v == hex_digit_value(b),
{
    if b >= 0x61 {
        b - 0x61 + 10
    } else if b >= 0x41 {
        b - 0x41 + 10
    } else {
        b - 0x30
    }
}

fn parse_hex_piece(s: &[u8], i: usize, j: usize) -> (g: u16)
    requires
        i <= j <= s@.len(),
        1 <= j - i <= 4,
        j == hex_run_end(s@, i as int),
    ensures
        g == hex_value(s@, i as int, j as int),
        hex_value(s@, i as int, j as int) <= 0xffff,
{
    proof {
        lemma_hex_run_end_bounds(s@, i as int);
        let ii = i as int;
        let jj = j as int;
        assert(hex_value(s@, ii, ii) == 0);
        assert(hex_value(s@, ii, ii + 1) == hex_digit_value(s@[ii]));
        if jj >= ii + 2 {
            assert(hex_value(s@, ii, ii + 2) == hex_value(s@, ii, ii + 1) * 16 + hex_digit_value(
                s@[ii + 1],
            ));
        }
        if jj >= ii + 3 {
            assert(hex_value(s@, ii, ii + 3) == hex_value(s@, ii, ii + 2) * 16 + hex_digit_value(
                s@[ii + 2],
            ));
        }
        if jj >= ii + 4 {
            assert(hex_value(s@, ii, ii + 4) == hex_value(s@, ii, ii + 3) * 16 + hex_digit_value(
                s@[ii + 3],
            ));
        }
    }
    let mut v: u32 = 0;
    if j - i == 1 {
        v = hex_digit(s[i]) as u32;
    } else if j - i == 2 {
        v = hex_digit(s[i]) as u32 * 16 + hex_digit(s[i + 1]) as u32;
    } else if j - i == 3 {
        v = (hex_digit(s[i]) as u32 * 16 + hex_digit(s[i + 1]) as u32) * 16 + hex_digit(
            s[i + 2],
        ) as u32;
    } else {
        v = ((hex_digit(s[i]) as u32 * 16 + hex_digit(s[i + 1]) as u32) * 16 + hex_digit(
            s[i + 2],
        ) as u32) * 16 + hex_digit(s[i + 3]) as u32;
    }
    v as u16
}

fn parse_groups(s: &[u8], i: usize, max: usize) -> (r: (Vec<u16>, usize))
    requires
        i <= s@.len(),
    ensures
        ({
            let (gs, e) = spec_parse_groups(s@, i as int, max as int);
            r.0@ == gs && r.1 == e && i <= r.1 <= s@.len()
        }),
    decreases max,
{
    proof {
        lemma_groups_bounds(s@, i as int, max as int);
    }
    if max == 0 {
        return (Vec::new(), i);
    }
    match parse_ipv4_at(s, i) {
        Some((v, e)) => {
            if e == s.len() && max >= 2 {
                let mut gs: Vec<u16> = Vec::new();
                gs.push((v / 0x10000) as u16);
                gs.push((v % 0x10000) as u16);
                proof {
                    assert(gs@ =~= seq![
                        ((v as int) / 0x10000) as u16,
                        ((v as int) % 0x10000) as u16,
                    ]);
                }
                return (gs, e);
            }
        },
        None => {},
    }
    let j = scan_hex_run(s, i);
    if j == i || j - i > 4 {
        return (Vec::new(), i);
    }
    let g = parse_hex_piece(s, i, j);
    if s.len() - j > 1 && s[j] == 0x3a && s[j + 1] != 0x3a {
        let (rest, e) = parse_groups(s, j + 1, max - 1);
        if rest.len() == 0 {
            let mut gs: Vec<u16> = Vec::new();
            gs.push(g);
            proof {
                assert(gs@ =~= seq![g]);
            }
            (gs, j)
        } else {
            let mut gs: Vec<u16> = Vec::new();
            gs.push(g);
            let mut rest = rest;
            gs.append(&mut rest);
            proof {
                assert(gs@ =~= seq![g] + spec_parse_groups(s@, j + 1, max - 1).0);
            }
            (gs, e)
        }
    } else {
        let mut gs: Vec<u16> = Vec::new();
        gs.push(g);
        proof {
            assert(gs@ =~= seq![g]);
        }
        (gs, j)
    }
}

/// Builds the eight groups from the pieces before and after the elision,
/// zero-filling the elided middle.
fn pad_groups(head: Vec<u16>, tail: Vec<u16>) -> (full: Vec<u16>)
    requires
        head@.len() + tail@.len() <= 8,
    ensures
        full@ == head@ + Seq::new((8 - head@.len() - tail@.len()) as nat, |k: int| 0u16) + tail@,
        full@.len() == 8,
{
    let ghost head0 = head@;
    let ghost tail0 = tail@;
    let target: usize = 8 - tail.len();
    let mut full = head;
    let mut rest = tail;
    proof {
        assert(full@ =~= head0 + Seq::new((full@.len() - head0.len()) as nat, |k: int| 0u16));
    }
    while full.len() < target
        invariant
            full@.len() <= target <= 8,
            rest@ == tail0,
            target == 8 - tail0.len(),
            head0.len() <= full@.len(),
            full@ == head0 + Seq::new((full@.len() - head0.len()) as nat, |k: int| 0u16),
        decreases target - full@.len(),
    {
        full.push(0u16);
        proof {
            assert(full@ =~= head0 + Seq::new((full@.len() - head0.len()) as nat, |k: int| 0u16));
        }
    }
    full.append(&mut rest);
    proof {
        assert(full@ =~= head0 + Seq::new((8 - head0.len() - tail0.len()) as nat, |k: int| 0u16)
            + tail0);
    }
    full
}

/// Parses a whole string as an IPv6 address; yields the eight groups.
pub fn parse_ipv6(s: &[u8]) -> (r: Option<Vec<u16>>)
    ensures
        match r {
            Some(gs) => spec_parse_ipv6(s@) == Some(gs@) && gs@.len() == 8,
            None => spec_parse_ipv6(s@) is None,
        },
{
    if s.len() >= 2 && s[0] == 0x3a && s[1] == 0x3a {
        let (tail, e) = parse_groups(s, 2, 7);
        proof {
            lemma_groups_bounds(s@, 2, 7);
        }
        if e == s.len() {
            let full = pad_groups(Vec::new(), tail);
            proof {
                assert(full@ =~= Seq::new(
                    (8 - spec_parse_groups(s@, 2, 7).0.len()) as nat,
                    |k: int| 0u16,
                ) + spec_parse_groups(s@, 2, 7).0);
            }
            Some(full)
        } else {
            None
        }
    } else {
        let (head, e) = parse_groups(s, 0, 8);
        proof {
            lemma_groups_bounds(s@, 0, 8);
        }
        if head.len() == 0 {
            None
        } else if e == s.len() {
            if head.len() == 8 {
                Some(head)
            } else {
                None
            }
        } else if s.len() - e > 1 && s[e] == 0x3a && s[e + 1] == 0x3a {
            let hl = head.len();
            if hl > 7 {
                return None;
            }
            let (tail, e2) = parse_groups(s, e + 2, 7 - hl);
            proof {
                lemma_groups_bounds(s@, e + 2, 7 - hl as int);
            }
            if e2 == s.len() && hl + tail.len() <= 7 {
                let full = pad_groups(head, tail);
                Some(full)
            } else {
                None
            }
        } else {
            None
        }
    }
}

/// The address grammar: dotted-quad IPv4, else IPv6.
pub open spec fn spec_parse_address(s: Seq<u8>) -> Option<Address> {
    match spec_parse_ipv4(s) {
        Some(v) => Some(Address::V4(v)),
        None => match spec_parse_ipv6(s) {
            Some(gs) => Some(
                Address::V6(gs[0], gs[1], gs[2], gs[3], gs[4], gs[5], gs[6], gs[7]),
            ),
            None => None,
        },
    }
}

/// Parses one whitelist entry as an address.
pub fn parse_address(s: &[u8]) -> (r: Option<Address>)
    ensures
        r == spec_parse_address(s@),
{
    match parse_ipv4(s) {
        Some(v) => Some(Address::V4(v)),
        None => match parse_ipv6(s) {
            Some(gs) => Some(
                Address::V6(gs[0], gs[1], gs[2], gs[3], gs[4], gs[5], gs[6], gs[7]),
            ),
            None => None,
        },
    }
}

/// Parses a whole string as an IPv4 address in dotted-quad form.
pub fn parse_ipv4(s: &[u8]) -> (r: Option<u32>)
    ensures
        r == spec_parse_ipv4(s@),
{
    match parse_ipv4_at(s, 0) {
        None => None,
        Some((v, j)) => if j == s.len() {
            Some(v)
        } else {
            None
        },
    }
}

} // verus!
