//! Plain-data addresses and byte-order helpers: values, text forms,
//! and the parsers for them.

use vstd::prelude::*;
use vstd::string::StringExecFns;
use vstd::string::StrSliceExecFns;

use crate::text::{digit_char, push_char, push_decimal, spec_dec};

verus! {

/// An IP address as plain data: a v4 address as its 32-bit value
/// (`127.0.0.1` is `0x7F00_0001`), a v6 address as its 128-bit value
/// (`::1` is `1`).
#[derive(Clone, Copy, Debug, PartialEq, Eq, Hash, Structural)]
pub enum IpAddress {
    V4(u32),
    V6(u128),
}

impl IpAddress {
    /// Loopback: v4 `127.0.0.0/8`, v6 `::1`.
    pub open spec fn spec_is_loopback(&self) -> bool {
        match self {
            IpAddress::V4(a) => a >> 24 == 127,
            IpAddress::V6(a) => a == 1,
        }
    }

    #[verifier::when_used_as_spec(spec_is_loopback)]
    pub fn is_loopback(&self) -> (r: bool)
        ensures
            r == self.spec_is_loopback(),
    {
        match self {
            IpAddress::V4(a) => *a >> 24 == 127,
            IpAddress::V6(a) => *a == 1,
        }
    }

    /// The all-zero address of either family.
    pub open spec fn spec_is_unspecified(&self) -> bool {
        match self {
            IpAddress::V4(a) => a == 0,
            IpAddress::V6(a) => a == 0,
        }
    }

    #[verifier::when_used_as_spec(spec_is_unspecified)]
    pub fn is_unspecified(&self) -> (r: bool)
        ensures
            r == self.spec_is_unspecified(),
    {
        match self {
            IpAddress::V4(a) => *a == 0,
            IpAddress::V6(a) => *a == 0,
        }
    }
}

/// The port held in the low half of a kernel table field: a big-endian
/// 16-bit value, so the low two bytes swapped give the host value.
pub open spec fn spec_ntohs(port: u32) -> u16 {
    ((port & 0xFF) * 256 + ((port >> 8) & 0xFF)) as u16
}

pub fn ntohs(port: u32) -> (r: u16)
    ensures
        r == spec_ntohs(port),
{
    proof {
        assert(((port & 0xFF) << 8 | (port >> 8) & 0xFF) == (port & 0xFF) * 256 + ((port >> 8)
            & 0xFF)) by (bit_vector);
        assert((port & 0xFF) * 256 + ((port >> 8) & 0xFF) <= 0xFFFF) by (bit_vector);
    }
    ((port & 0xFF) << 8 | (port >> 8) & 0xFF) as u16
}

/// A big-endian 16-bit value from two bytes, as in packet headers.
pub open spec fn spec_u16_from_be(hi: u8, lo: u8) -> u16 {
    (hi * 256 + lo) as u16
}

pub fn u16_from_be(hi: u8, lo: u8) -> (r: u16)
    ensures
        r == spec_u16_from_be(hi, lo),
{
    hi as u16 * 256 + lo as u16
}

/// The v4 address held in four bytes in network order, as its value:
/// the first byte is the most significant.
pub open spec fn spec_ipv4_from_bytes(b0: u8, b1: u8, b2: u8, b3: u8) -> u32 {
    (b0 * 0x1000000 + b1 * 0x10000 + b2 * 0x100 + b3) as u32
}

pub fn ipv4_from_bytes(b0: u8, b1: u8, b2: u8, b3: u8) -> (r: u32)
    ensures
        r == spec_ipv4_from_bytes(b0, b1, b2, b3),
{
    b0 as u32 * 0x1000000 + b1 as u32 * 0x10000 + b2 as u32 * 0x100 + b3 as u32
}


impl View for IpAddress {
    type V = IpAddress;

    open spec fn view(&self) -> IpAddress {
        *self
    }
}

impl DeepView for IpAddress {
    type V = IpAddress;

    open spec fn deep_view(&self) -> IpAddress {
        *self
    }
}


// ─── Address text ────────────────────────────────────────────────────────

/// Dotted decimal: four octets, most significant first.
pub open spec fn spec_ipv4_text(a: u32) -> Seq<char> {
    spec_dec((a >> 24) as nat) + seq!['.'] + spec_dec(((a >> 16) & 0xFF) as nat) + seq!['.']
        + spec_dec(((a >> 8) & 0xFF) as nat) + seq!['.'] + spec_dec((a & 0xFF) as nat)
}

pub fn push_ipv4_text(s: &mut String, a: u32)
    ensures
        final(s)@ == old(s)@ + spec_ipv4_text(a),
{
    proof {
        assert(a >> 24 < 256 && ((a >> 16) & 0xFF) < 256 && ((a >> 8) & 0xFF) < 256 && (a & 0xFF)
            < 256) by (bit_vector);
    }
    push_decimal(s, (a >> 24) as u64);
    push_char(s, '.');
    push_decimal(s, ((a >> 16) & 0xFF) as u64);
    push_char(s, '.');
    push_decimal(s, ((a >> 8) & 0xFF) as u64);
    push_char(s, '.');
    push_decimal(s, (a & 0xFF) as u64);
    proof {
        assert(final(s)@ =~= old(s)@ + spec_ipv4_text(a));
    }
}

pub open spec fn spec_hex_digit_char(d: int) -> char
    recommends
        0 <= d < 16,
{
    if d < 10 {
        crate::text::spec_digit_char(d)
    } else if d == 10 {
        'a'
    } else if d == 11 {
        'b'
    } else if d == 12 {
        'c'
    } else if d == 13 {
        'd'
    } else if d == 14 {
        'e'
    } else {
        'f'
    }
}

fn hex_digit_char(d: u8) -> (c: char)
    requires
        d < 16,
    ensures
        c == spec_hex_digit_char(d as int),
{
    if d < 10 {
        digit_char(d)
    } else {
        match d {
            10 => 'a',
            11 => 'b',
            12 => 'c',
            13 => 'd',
            14 => 'e',
            _ => 'f',
        }
    }
}

/// Lowercase hex digits of `n`, most significant first, no leading
/// zeros.
pub open spec fn spec_hex(n: nat) -> Seq<char>
    decreases n,
{
    if n < 16 {
        seq![spec_hex_digit_char(n as int)]
    } else {
        spec_hex(n / 16).push(spec_hex_digit_char((n % 16) as int))
    }
}

fn push_hex(s: &mut String, n: u16)
    ensures
        final(s)@ == old(s)@ + spec_hex(n as nat),
    decreases n,
{
    if n < 16 {
        push_char(s, hex_digit_char(n as u8));
        proof {
            assert(old(s)@ + spec_hex(n as nat) =~= old(s)@.push(spec_hex_digit_char(n as int)));
        }
    } else {
        push_hex(s, n / 16);
        push_char(s, hex_digit_char((n % 16) as u8));
        proof {
            assert(old(s)@ + spec_hex(n as nat) =~= (old(s)@ + spec_hex((n / 16) as nat)).push(
                spec_hex_digit_char((n % 16) as int),
            ));
        }
    }
}

/// The eight 16-bit groups of a v6 address, most significant first.
pub open spec fn spec_v6_groups(a: u128) -> Seq<u16> {
    seq![
        ((a >> 112) & 0xFFFF) as u16,
        ((a >> 96) & 0xFFFF) as u16,
        ((a >> 80) & 0xFFFF) as u16,
        ((a >> 64) & 0xFFFF) as u16,
        ((a >> 48) & 0xFFFF) as u16,
        ((a >> 32) & 0xFFFF) as u16,
        ((a >> 16) & 0xFFFF) as u16,
        (a & 0xFFFF) as u16,
    ]
}

/// The length of the zero-group run starting at `i`.
pub open spec fn spec_zero_run(g: Seq<u16>, i: int) -> int
    decreases g.len() - i,
{
    if i < 0 || i >= g.len() || g[i] != 0 {
        0
    } else {
        1 + spec_zero_run(g, i + 1)
    }
}

/// The first longest zero run, scanned left to right, a strictly
/// longer run replacing the held one.
pub open spec fn spec_best_zero_run(g: Seq<u16>, i: int, bs: int, bl: int) -> (int, int)
    decreases g.len() - i,
{
    if i < 0 || i >= g.len() {
        (bs, bl)
    } else if spec_zero_run(g, i) > bl {
        spec_best_zero_run(g, i + 1, i, spec_zero_run(g, i))
    } else {
        spec_best_zero_run(g, i + 1, bs, bl)
    }
}

/// Hex groups `g[s..e]` joined with colons.
pub open spec fn spec_join_hex(g: Seq<u16>, s: int, e: int) -> Seq<char>
    decreases e - s,
{
    if s >= e {
        Seq::empty()
    } else if s + 1 == e {
        spec_hex(g[s] as nat)
    } else {
        spec_hex(g[s] as nat) + seq![':'] + spec_join_hex(g, s + 1, e)
    }
}

/// The textual form of a v6 address: a v4-mapped address as
/// `::ffff:a.b.c.d`; otherwise hex groups with the first longest run
/// of at least two zero groups compressed to `::`.
pub open spec fn spec_ipv6_text(a: u128) -> Seq<char> {
    let g = spec_v6_groups(a);
    if g[0] == 0 && g[1] == 0 && g[2] == 0 && g[3] == 0 && g[4] == 0 && g[5] == 0xFFFF {
        "::ffff:"@ + spec_ipv4_text((a & 0xFFFF_FFFF) as u32)
    } else {
        let run = spec_best_zero_run(g, 0, 0, 0);
        if run.1 >= 2 {
            spec_join_hex(g, 0, run.0) + "::"@ + spec_join_hex(g, run.0 + run.1, 8)
        } else {
            spec_join_hex(g, 0, 8)
        }
    }
}

fn v6_groups(a: u128) -> (g: Vec<u16>)
    ensures
        g@ == spec_v6_groups(a),
{
    let mut g: Vec<u16> = Vec::new();
    g.push(((a >> 112) & 0xFFFF) as u16);
    g.push(((a >> 96) & 0xFFFF) as u16);
    g.push(((a >> 80) & 0xFFFF) as u16);
    g.push(((a >> 64) & 0xFFFF) as u16);
    g.push(((a >> 48) & 0xFFFF) as u16);
    g.push(((a >> 32) & 0xFFFF) as u16);
    g.push(((a >> 16) & 0xFFFF) as u16);
    g.push((a & 0xFFFF) as u16);
    proof {
        assert(g@ =~= spec_v6_groups(a));
    }
    g
}

fn zero_run(g: &Vec<u16>, i: usize) -> (r: usize)
    requires
        i <= g@.len(),
    ensures
        r == spec_zero_run(g@, i as int),
        i + r <= g@.len(),
{
    let mut j = i;
    while j < g.len() && g[j] == 0
        invariant
            i <= j <= g@.len(),
            spec_zero_run(g@, i as int) == j - i + spec_zero_run(g@, j as int),
        decreases g@.len() - j,
    {
        j = j + 1;
    }
    j - i
}

fn push_join_hex(s: &mut String, g: &Vec<u16>, from: usize, to: usize)
    requires
        from <= to <= g@.len(),
    ensures
        final(s)@ == old(s)@ + spec_join_hex(g@, from as int, to as int),
    decreases to - from,
{
    if from >= to {
        proof {
            assert(old(s)@ + Seq::<char>::empty() =~= old(s)@);
        }
    } else if from + 1 == to {
        push_hex(s, g[from]);
    } else {
        push_hex(s, g[from]);
        push_char(s, ':');
        push_join_hex(s, g, from + 1, to);
        proof {
            assert(old(s)@ + spec_join_hex(g@, from as int, to as int) =~= ((old(s)@ + spec_hex(
                g@[from as int] as nat,
            )).push(':')) + spec_join_hex(g@, from + 1, to as int));
        }
    }
}

/// The textual form of a v6 address, as `spec_ipv6_text` gives it.
pub fn ipv6_text(a: u128) -> (r: String)
    ensures
        r@ == spec_ipv6_text(a),
{
    let g = v6_groups(a);
    let mut out = String::new();
    if g[0] == 0 && g[1] == 0 && g[2] == 0 && g[3] == 0 && g[4] == 0 && g[5] == 0xFFFF {
        out.append("::ffff:");
        push_ipv4_text(&mut out, (a & 0xFFFF_FFFF) as u32);
        proof {
            assert(out@ =~= spec_ipv6_text(a));
        }
        return out;
    }
    let mut bs: usize = 0;
    let mut bl: usize = 0;
    let mut i: usize = 0;
    while i < 8
        invariant
            i <= 8,
            g@ == spec_v6_groups(a),
            bs + bl <= g@.len(),
            bl == spec_zero_run(g@, bs as int) || (bs == 0 && bl == 0),
            spec_best_zero_run(g@, 0, 0, 0) == spec_best_zero_run(g@, i as int, bs as int, bl as int),
        decreases 8 - i,
    {
        let r = zero_run(&g, i);
        if r > bl {
            bs = i;
            bl = r;
        }
        i = i + 1;
    }
    if bl >= 2 {
        push_join_hex(&mut out, &g, 0, bs);
        out.append("::");
        push_join_hex(&mut out, &g, bs + bl, 8);
        proof {
            assert(out@ =~= spec_ipv6_text(a));
        }
    } else {
        push_join_hex(&mut out, &g, 0, 8);
        proof {
            assert(out@ =~= spec_ipv6_text(a));
        }
    }
    out
}

/// The textual form of an address of either family.
pub open spec fn spec_ip_text(ip: IpAddress) -> Seq<char> {
    match ip {
        IpAddress::V4(a) => spec_ipv4_text(a),
        IpAddress::V6(a) => spec_ipv6_text(a),
    }
}

pub fn ip_text(ip: &IpAddress) -> (r: String)
    ensures
        r@ == spec_ip_text(*ip),
{
    match ip {
        IpAddress::V4(a) => {
            let mut out = String::new();
            push_ipv4_text(&mut out, *a);
            proof {
                assert(out@ =~= spec_ipv4_text(*a));
            }
            out
        },
        IpAddress::V6(a) => ipv6_text(*a),
    }
}


// ─── Address parsing ─────────────────────────────────────────────────────

pub open spec fn spec_is_digit(c: char) -> bool {
    '0' <= c && c <= '9'
}

/// Where the digit run starting at `i` ends.
pub open spec fn spec_digit_run(s: Seq<char>, i: int) -> int
    decreases s.len() - i,
{
    if i < 0 || i >= s.len() || !spec_is_digit(s[i]) {
        i
    } else {
        spec_digit_run(s, i + 1)
    }
}

pub open spec fn spec_digits_value(s: Seq<char>, i: int, j: int) -> int
    decreases j - i,
{
    if i >= j {
        0
    } else {
        spec_digits_value(s, i, j - 1) * 10 + (s[j - 1] as int - 48)
    }
}

/// A decimal octet as v4 text holds it: one to three digits, no
/// leading zero, value at most 255.
pub open spec fn spec_valid_octet(s: Seq<char>, i: int, j: int) -> bool {
    &&& i < j <= s.len()
    &&& j - i <= 3
    &&& (j == i + 1 || s[i] != '0')
    &&& spec_digits_value(s, i, j) <= 255
}

/// Dotted-quad text as a v4 value: four valid octets joined by dots
/// and nothing else.
pub open spec fn spec_parse_ipv4(s: Seq<char>) -> Option<u32> {
    let j1 = spec_digit_run(s, 0);
    let j2 = spec_digit_run(s, j1 + 1);
    let j3 = spec_digit_run(s, j2 + 1);
    let j4 = spec_digit_run(s, j3 + 1);
    if spec_valid_octet(s, 0, j1) && j1 < s.len() && s[j1] == '.' && spec_valid_octet(s, j1 + 1, j2)
        && j2 < s.len() && s[j2] == '.' && spec_valid_octet(s, j2 + 1, j3) && j3 < s.len() && s[j3]
        == '.' && spec_valid_octet(s, j3 + 1, j4) && j4 == s.len() {
        Some(
            (spec_digits_value(s, 0, j1) * 0x1000000 + spec_digits_value(s, j1 + 1, j2) * 0x10000
                + spec_digits_value(s, j2 + 1, j3) * 0x100 + spec_digits_value(
                s,
                j3 + 1,
                j4,
            )) as u32,
        )
    } else {
        None
    }
}

fn digit_run(s: &str, i: usize, n: usize) -> (j: usize)
    requires
        i <= n,
        n == s@.len(),
    ensures
        j == spec_digit_run(s@, i as int),
        i <= j <= n,
        forall|k: int| i <= k < j ==> spec_is_digit(s@[k]),
{
    let mut j = i;
    loop
        invariant
            i <= j <= n,
            n == s@.len(),
            spec_digit_run(s@, i as int) == spec_digit_run(s@, j as int),
            forall|k: int| i <= k < j ==> spec_is_digit(s@[k]),
        decreases n - j,
    {
        if j >= n {
            return j;
        }
        let c = s.get_char(j);
        if !('0' <= c && c <= '9') {
            return j;
        }
        j = j + 1;
    }
}

fn digits_value(s: &str, i: usize, j: usize) -> (v: u32)
    requires
        i <= j <= s@.len(),
        j - i <= 3,
        forall|k: int| i <= k < j ==> spec_is_digit(s@[k]),
    ensures
        v == spec_digits_value(s@, i as int, j as int),
        v <= 999,
{
    let mut v: u32 = 0;
    let mut k = i;
    while k < j
        invariant
            i <= k <= j <= s@.len(),
            j - i <= 3,
            forall|t: int| i <= t < j ==> spec_is_digit(s@[t]),
            v == spec_digits_value(s@, i as int, k as int),
            v <= (if k - i == 0 {
                0int
            } else if k - i == 1 {
                9int
            } else if k - i == 2 {
                99int
            } else {
                999int
            }),
        decreases j - k,
    {
        let c = s.get_char(k);
        v = v * 10 + (c as u32 - 48);
        k = k + 1;
    }
    v
}

/// Parses dotted-quad v4 text, exactly as `spec_parse_ipv4` reads it.
pub fn parse_ipv4(s: &str) -> (r: Option<u32>)
    ensures
        r == spec_parse_ipv4(s@),
{
    let n = s.unicode_len();
    let j1 = digit_run(s, 0, n);
    if !(j1 >= 1 && j1 <= 3 && (j1 == 1 || s.get_char(0) != '0') && j1 < n && s.get_char(j1)
        == '.') {
        return None;
    }
    let o1 = digits_value(s, 0, j1);
    if o1 > 255 {
        return None;
    }
    let j2 = digit_run(s, j1 + 1, n);
    if !(j2 - (j1 + 1) >= 1 && j2 - (j1 + 1) <= 3 && (j2 == j1 + 2 || s.get_char(j1 + 1) != '0')
        && j2 < n && s.get_char(j2) == '.') {
        return None;
    }
    let o2 = digits_value(s, j1 + 1, j2);
    if o2 > 255 {
        return None;
    }
    let j3 = digit_run(s, j2 + 1, n);
    if !(j3 - (j2 + 1) >= 1 && j3 - (j2 + 1) <= 3 && (j3 == j2 + 2 || s.get_char(j2 + 1) != '0')
        && j3 < n && s.get_char(j3) == '.') {
        return None;
    }
    let o3 = digits_value(s, j2 + 1, j3);
    if o3 > 255 {
        return None;
    }
    let j4 = digit_run(s, j3 + 1, n);
    if !(j4 - (j3 + 1) >= 1 && j4 - (j3 + 1) <= 3 && (j4 == j3 + 2 || s.get_char(j3 + 1) != '0')
        && j4 == n) {
        return None;
    }
    let o4 = digits_value(s, j3 + 1, j4);
    if o4 > 255 {
        return None;
    }
    Some(o1 * 0x1000000 + o2 * 0x10000 + o3 * 0x100 + o4)
}

// ─── v6 parsing ──────────────────────────────────────────────────────────

pub open spec fn spec_is_hex_char(c: char) -> bool {
    spec_is_digit(c) || ('a' <= c && c <= 'f') || ('A' <= c && c <= 'F')
}

pub open spec fn spec_hex_char_value(c: char) -> int {
    if spec_is_digit(c) {
        c as int - 48
    } else if 'a' <= c && c <= 'f' {
        c as int - 87
    } else {
        c as int - 55
    }
}

pub open spec fn spec_hex_run(s: Seq<char>, i: int) -> int
    decreases s.len() - i,
{
    if i < 0 || i >= s.len() || !spec_is_hex_char(s[i]) {
        i
    } else {
        spec_hex_run(s, i + 1)
    }
}

pub open spec fn spec_hex_value(s: Seq<char>, i: int, j: int) -> int
    decreases j - i,
{
    if i >= j {
        0
    } else {
        spec_hex_value(s, i, j - 1) * 16 + spec_hex_char_value(s[j - 1])
    }
}

/// One pass over v6 text from `i`: collects the hex groups and the
/// position of the `::` gap, or nothing when the text is not well
/// formed.
pub open spec fn spec_v6_scan(s: Seq<char>, i: int, groups: Seq<u16>, gap: Option<int>) -> Option<
    (Seq<u16>, Option<int>),
>
    decreases s.len() - i,
{
    if i < 0 || i > s.len() {
        None
    } else {
        let j = spec_hex_run(s, i);
        if j <= i || j - i > 4 {
            None
        } else {
            let groups2 = groups.push(spec_hex_value(s, i, j) as u16);
            if groups2.len() > 8 {
                None
            } else if j >= s.len() {
                Some((groups2, gap))
            } else if s[j] != ':' {
                None
            } else if j + 1 < s.len() && s[j + 1] == ':' {
                if gap is Some {
                    None
                } else if j + 2 == s.len() {
                    Some((groups2, Some(groups2.len() as int)))
                } else {
                    spec_v6_scan(s, j + 2, groups2, Some(groups2.len() as int))
                }
            } else if j + 1 == s.len() {
                None
            } else {
                spec_v6_scan(s, j + 1, groups2, gap)
            }
        }
    }
}

/// The value of eight groups, most significant first.
pub open spec fn spec_v6_of_groups(g: Seq<u16>) -> int
    recommends
        g.len() == 8,
{
    (g[0] as int) * 0x10000000000000000000000000000 + (g[1] as int)
        * 0x1000000000000000000000000 + (g[2] as int) * 0x100000000000000000000 + (g[3] as int)
        * 0x10000000000000000 + (g[4] as int) * 0x1000000000000 + (g[5] as int) * 0x100000000 + (
    g[6] as int) * 0x10000 + (g[7] as int)
}

/// The expansion of scanned groups around the gap to eight groups.
pub open spec fn spec_v6_assemble(g: Seq<u16>, gap: Option<int>) -> Option<u128> {
    match gap {
        None => if g.len() == 8 {
            Some(spec_v6_of_groups(g) as u128)
        } else {
            None
        },
        Some(p) => if g.len() <= 7 && 0 <= p <= g.len() {
            Some(
                spec_v6_of_groups(
                    g.take(p) + Seq::new((8 - g.len()) as nat, |k: int| 0u16) + g.skip(p),
                ) as u128,
            )
        } else {
            None
        },
    }
}

/// v6 text as a value: colon-separated hex groups with at most one
/// `::` gap. (The embedded dotted-quad tail form is not read.)
pub open spec fn spec_parse_ipv6(s: Seq<char>) -> Option<u128> {
    if s.len() >= 2 && s[0] == ':' && s[1] == ':' {
        if s.len() == 2 {
            Some(0)
        } else {
            match spec_v6_scan(s, 2, Seq::empty(), Some(0)) {
                Some((g, gap)) => spec_v6_assemble(g, gap),
                None => None,
            }
        }
    } else if s.len() >= 1 && s[0] == ':' {
        None
    } else {
        match spec_v6_scan(s, 0, Seq::empty(), None) {
            Some((g, gap)) => spec_v6_assemble(g, gap),
            None => None,
        }
    }
}


fn hex_run(s: &str, i: usize, n: usize) -> (j: usize)
    requires
        i <= n,
        n == s@.len(),
    ensures
        j == spec_hex_run(s@, i as int),
        i <= j <= n,
        forall|k: int| i <= k < j ==> spec_is_hex_char(s@[k]),
{
    let mut j = i;
    loop
        invariant
            i <= j <= n,
            n == s@.len(),
            spec_hex_run(s@, i as int) == spec_hex_run(s@, j as int),
            forall|k: int| i <= k < j ==> spec_is_hex_char(s@[k]),
        decreases n - j,
    {
        if j >= n {
            return j;
        }
        let c = s.get_char(j);
        if !(('0' <= c && c <= '9') || ('a' <= c && c <= 'f') || ('A' <= c && c <= 'F')) {
            return j;
        }
        j = j + 1;
    }
}

fn hex_group_value(s: &str, i: usize, j: usize) -> (v: u16)
    requires
        i <= j <= s@.len(),
        1 <= j - i <= 4,
        forall|k: int| i <= k < j ==> spec_is_hex_char(s@[k]),
    ensures
        v as int == spec_hex_value(s@, i as int, j as int),
{
    let mut v: u16 = 0;
    let mut k = i;
    while k < j
        invariant
            i <= k <= j <= s@.len(),
            j - i <= 4,
            forall|t: int| i <= t < j ==> spec_is_hex_char(s@[t]),
            v as int == spec_hex_value(s@, i as int, k as int),
            v <= (if k - i == 0 {
                0int
            } else if k - i == 1 {
                0xFint
            } else if k - i == 2 {
                0xFFint
            } else if k - i == 3 {
                0xFFFint
            } else {
                0xFFFFint
            }),
        decreases j - k,
    {
        let c = s.get_char(k);
        let d: u16 = if '0' <= c && c <= '9' {
            (c as u32 - 48) as u16
        } else if 'a' <= c && c <= 'f' {
            (c as u32 - 87) as u16
        } else {
            (c as u32 - 55) as u16
        };
        v = v * 16 + d;
        k = k + 1;
    }
    v
}

fn v6_value_of(g: &Vec<u16>) -> (v: u128)
    requires
        g@.len() == 8,
    ensures
        v as int == spec_v6_of_groups(g@),
{
    (g[0] as u128) * 0x10000000000000000000000000000 + (g[1] as u128)
        * 0x1000000000000000000000000 + (g[2] as u128) * 0x100000000000000000000 + (g[3] as u128)
        * 0x10000000000000000 + (g[4] as u128) * 0x1000000000000 + (g[5] as u128) * 0x100000000 + (
    g[6] as u128) * 0x10000 + (g[7] as u128)
}

fn v6_assemble(groups: &Vec<u16>, gap: Option<usize>) -> (r: Option<u128>)
    requires
        groups@.len() <= 8,
        match gap {
            Some(p) => p <= groups@.len(),
            None => true,
        },
    ensures
        r == spec_v6_assemble(
            groups@,
            match gap {
                Some(p) => Some(p as int),
                None => None,
            },
        ),
{
    match gap {
        None => {
            if groups.len() == 8 {
                Some(v6_value_of(groups))
            } else {
                None
            }
        },
        Some(p) => {
            if groups.len() <= 7 {
                let glen = groups.len();
                let zcount = 8 - glen;
                let mut full: Vec<u16> = Vec::new();
                let mut t: usize = 0;
                proof {
                    assert(full@ =~= groups@.subrange(0, 0));
                }
                while t < p
                    invariant
                        t <= p <= glen == groups@.len() <= 7,
                        full@ == groups@.subrange(0, t as int),
                    decreases p - t,
                {
                    let ghost before = full@;
                    full.push(groups[t]);
                    proof {
                        assert(full@ =~= groups@.subrange(0, t + 1));
                    }
                    t = t + 1;
                }
                let mut z: usize = 0;
                proof {
                    assert(full@ =~= groups@.subrange(0, p as int) + Seq::new(
                        0,
                        |k: int| 0u16,
                    ));
                }
                while z < zcount
                    invariant
                        z <= zcount == 8 - glen,
                        glen == groups@.len(),
                        p <= glen,
                        full@ == groups@.subrange(0, p as int) + Seq::new(
                            z as nat,
                            |k: int| 0u16,
                        ),
                    decreases zcount - z,
                {
                    full.push(0);
                    proof {
                        assert(full@ =~= groups@.subrange(0, p as int) + Seq::new(
                            (z + 1) as nat,
                            |k: int| 0u16,
                        ));
                    }
                    z = z + 1;
                }
                let mut t2: usize = p;
                proof {
                    assert(groups@.subrange(p as int, p as int) =~= Seq::<u16>::empty());
                    assert(full@ =~= groups@.subrange(0, p as int) + Seq::new(
                        zcount as nat,
                        |k: int| 0u16,
                    ) + groups@.subrange(p as int, p as int));
                }
                while t2 < glen
                    invariant
                        p <= t2 <= glen == groups@.len(),
                        zcount == 8 - glen,
                        full@ == groups@.subrange(0, p as int) + Seq::new(
                            zcount as nat,
                            |k: int| 0u16,
                        ) + groups@.subrange(p as int, t2 as int),
                    decreases glen - t2,
                {
                    full.push(groups[t2]);
                    proof {
                        assert(full@ =~= groups@.subrange(0, p as int) + Seq::new(
                            zcount as nat,
                            |k: int| 0u16,
                        ) + groups@.subrange(p as int, t2 + 1));
                    }
                    t2 = t2 + 1;
                }
                proof {
                    assert(groups@.subrange(0, p as int) =~= groups@.take(p as int));
                    assert(groups@.subrange(p as int, glen as int) =~= groups@.skip(p as int));
                    assert(full@.len() == 8);
                }
                Some(v6_value_of(&full))
            } else {
                None
            }
        },
    }
}

/// Parses colon-separated hex-group v6 text, exactly as
/// `spec_parse_ipv6` reads it.
pub fn parse_ipv6(s: &str) -> (r: Option<u128>)
    ensures
        r == spec_parse_ipv6(s@),
{
    let n = s.unicode_len();
    let mut groups: Vec<u16> = Vec::new();
    let mut gap: Option<usize> = None;
    let mut i: usize;
    if n >= 2 && s.get_char(0) == ':' && s.get_char(1) == ':' {
        if n == 2 {
            return Some(0);
        }
        gap = Some(0);
        i = 2;
    } else if n >= 1 && s.get_char(0) == ':' {
        return None;
    } else {
        i = 0;
    }
    proof {
        assert(groups@ =~= Seq::<u16>::empty());
    }
    loop
        invariant
            i <= n,
            n == s@.len(),
            groups@.len() <= 8,
            match gap {
                Some(p) => p <= groups@.len(),
                None => true,
            },
            spec_parse_ipv6(s@) == (match spec_v6_scan(
                s@,
                i as int,
                groups@,
                match gap {
                    Some(p) => Some(p as int),
                    None => None,
                },
            ) {
                Some((g, gp)) => spec_v6_assemble(g, gp),
                None => None,
            }),
        decreases n - i,
    {
        let j = hex_run(s, i, n);
        if j <= i || j - i > 4 {
            return None;
        }
        let v = hex_group_value(s, i, j);
        let ghost gprev = groups@;
        groups.push(v);
        proof {
            assert(groups@ =~= gprev.push(v));
        }
        if groups.len() > 8 {
            return None;
        }
        if j >= n {
            return v6_assemble(&groups, gap);
        }
        if s.get_char(j) != ':' {
            return None;
        }
        if j + 1 < n && s.get_char(j + 1) == ':' {
            if gap.is_some() {
                return None;
            }
            gap = Some(groups.len());
            if j + 2 == n {
                return v6_assemble(&groups, gap);
            }
            i = j + 2;
        } else {
            if j + 1 == n {
                return None;
            }
            i = j + 1;
        }
    }
}

} // verus!
