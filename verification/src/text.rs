//! String helpers: building, searching, and comparing text.

use vstd::prelude::*;
use vstd::string::StrSliceExecFns;
use vstd::string::StringExecFns;

verus! {

// ─── Trusted bridges to std ──────────────────────────────────────────────

/// Relies on `String::push`: appends exactly the given character.
#[verifier::external_body]
pub fn push_char(s: &mut String, c: char)
    ensures
        final(s)@ == old(s)@.push(c),
{
    s.push(c);
}

/// The lowercase form of a character sequence, as `str::to_lowercase`
/// computes it from the Unicode tables.
pub uninterp spec fn lower_of(s: Seq<char>) -> Seq<char>;

/// Relies on `str::to_lowercase`: the result depends on the characters
/// alone, and an empty string stays empty.
#[verifier::external_body]
pub fn to_lowercase(s: &str) -> (r: String)
    ensures
        r@ == lower_of(s@),
        s@.len() == 0 ==> r@.len() == 0,
{
    s.to_lowercase()
}

// ─── Decimal rendering ───────────────────────────────────────────────────

pub open spec fn spec_digit_char(d: int) -> char
    recommends
        0 <= d < 10,
{
    if d == 0 {
        '0'
    } else if d == 1 {
        '1'
    } else if d == 2 {
        '2'
    } else if d == 3 {
        '3'
    } else if d == 4 {
        '4'
    } else if d == 5 {
        '5'
    } else if d == 6 {
        '6'
    } else if d == 7 {
        '7'
    } else if d == 8 {
        '8'
    } else {
        '9'
    }
}

pub fn digit_char(d: u8) -> (c: char)
    requires
        d < 10,
    ensures
        c == spec_digit_char(d as int),
{
    match d {
        0 => '0',
        1 => '1',
        2 => '2',
        3 => '3',
        4 => '4',
        5 => '5',
        6 => '6',
        7 => '7',
        8 => '8',
        _ => '9',
    }
}

/// The decimal digits of `n`, most significant first, no leading zeros
/// (`0` is the single digit `0`).
pub open spec fn spec_dec(n: nat) -> Seq<char>
    decreases n,
{
    if n < 10 {
        seq![spec_digit_char(n as int)]
    } else {
        spec_dec(n / 10).push(spec_digit_char((n % 10) as int))
    }
}

pub fn push_decimal(s: &mut String, n: u64)
    ensures
        final(s)@ == old(s)@ + spec_dec(n as nat),
    decreases n,
{
    if n < 10 {
        push_char(s, digit_char(n as u8));
        proof {
            assert(old(s)@ + spec_dec(n as nat) =~= old(s)@.push(spec_digit_char(n as int)));
        }
    } else {
        push_decimal(s, n / 10);
        push_char(s, digit_char((n % 10) as u8));
        proof {
            assert(old(s)@ + spec_dec(n as nat) =~= (old(s)@ + spec_dec((n / 10) as nat)).push(
                spec_digit_char((n % 10) as int),
            ));
        }
    }
}

pub fn u64_to_string(n: u64) -> (r: String)
    ensures
        r@ == spec_dec(n as nat),
{
    let mut s = String::new();
    push_decimal(&mut s, n);
    proof {
        assert(Seq::<char>::empty() + spec_dec(n as nat) =~= spec_dec(n as nat));
    }
    s
}

// ─── Lexicographic comparison ────────────────────────────────────────────

/// Lexicographic order on character sequences by character value; a
/// prefix sorts before its extensions.
pub open spec fn spec_lex_le(a: Seq<char>, b: Seq<char>) -> bool
    decreases a.len(),
{
    if a.len() == 0 {
        true
    } else if b.len() == 0 {
        false
    } else if (a[0] as u32) < (b[0] as u32) {
        true
    } else if (b[0] as u32) < (a[0] as u32) {
        false
    } else {
        spec_lex_le(a.skip(1), b.skip(1))
    }
}

/// Lexicographic order is total.
pub proof fn lemma_lex_le_total(a: Seq<char>, b: Seq<char>)
    ensures
        spec_lex_le(a, b) || spec_lex_le(b, a),
    decreases a.len(),
{
    if a.len() != 0 && b.len() != 0 && (a[0] as u32) == (b[0] as u32) {
        lemma_lex_le_total(a.skip(1), b.skip(1));
    }
}

/// Lexicographic order is transitive.
pub proof fn lemma_lex_le_trans(a: Seq<char>, b: Seq<char>, c: Seq<char>)
    requires
        spec_lex_le(a, b),
        spec_lex_le(b, c),
    ensures
        spec_lex_le(a, c),
    decreases a.len(),
{
    if a.len() != 0 {
        assert(b.len() != 0);
        assert(c.len() != 0);
        if (a[0] as u32) == (b[0] as u32) && (b[0] as u32) == (c[0] as u32) {
            lemma_lex_le_trans(a.skip(1), b.skip(1), c.skip(1));
        }
    }
}

pub fn str_lex_le(a: &str, b: &str) -> (r: bool)
    ensures
        r == spec_lex_le(a@, b@),
{
    let alen = a.unicode_len();
    let blen = b.unicode_len();
    let mut i: usize = 0;
    proof {
        assert(a@.skip(0) =~= a@);
        assert(b@.skip(0) =~= b@);
    }
    while i < alen && i < blen
        invariant
            i <= alen,
            i <= blen,
            alen == a@.len(),
            blen == b@.len(),
            spec_lex_le(a@, b@) == spec_lex_le(a@.skip(i as int), b@.skip(i as int)),
        decreases alen - i,
    {
        let ca = a.get_char(i);
        let cb = b.get_char(i);
        proof {
            assert(a@.skip(i as int)[0] == a@[i as int]);
            assert(b@.skip(i as int)[0] == b@[i as int]);
        }
        if (ca as u32) < (cb as u32) {
            return true;
        }
        if (cb as u32) < (ca as u32) {
            return false;
        }
        proof {
            assert(a@.skip(i as int).skip(1) =~= a@.skip(i + 1));
            assert(b@.skip(i as int).skip(1) =~= b@.skip(i + 1));
        }
        i = i + 1;
    }
    proof {
        if i == alen {
            assert(a@.skip(i as int).len() == 0);
        } else {
            assert(b@.skip(i as int).len() == 0);
            assert(a@.skip(i as int).len() > 0);
        }
    }
    alen <= blen
}

// ─── Substring search ────────────────────────────────────────────────────

pub open spec fn spec_contains_at(h: Seq<char>, n: Seq<char>, i: int) -> bool {
    0 <= i && i + n.len() <= h.len() && h.subrange(i, i + n.len()) == n
}

/// `n` occurs contiguously somewhere in `h`; an empty `n` always does.
pub open spec fn spec_contains(h: Seq<char>, n: Seq<char>) -> bool {
    exists|i: int| spec_contains_at(h, n, i)
}

fn match_at(h: &str, n: &str, i: usize) -> (r: bool)
    requires
        i + n@.len() <= h@.len(),
    ensures
        r == spec_contains_at(h@, n@, i as int),
{
    let hlen = h.unicode_len();
    let nlen = n.unicode_len();
    let mut j: usize = 0;
    while j < nlen
        invariant
            j <= nlen,
            nlen == n@.len(),
            hlen == h@.len(),
            i + nlen <= hlen,
            forall|k: int| 0 <= k < j ==> h@[i + k] == n@[k],
        decreases nlen - j,
    {
        if h.get_char(i + j) != n.get_char(j) {
            proof {
                assert(h@.subrange(i as int, i + n@.len())[j as int] != n@[j as int]);
            }
            return false;
        }
        j = j + 1;
    }
    proof {
        assert(h@.subrange(i as int, i + n@.len()) =~= n@);
    }
    true
}

pub fn str_contains(h: &str, n: &str) -> (r: bool)
    ensures
        r == spec_contains(h@, n@),
{
    let hlen = h.unicode_len();
    let nlen = n.unicode_len();
    if nlen > hlen {
        proof {
            assert(forall|i: int| !spec_contains_at(h@, n@, i));
        }
        return false;
    }
    let bound = hlen - nlen;
    let mut i: usize = 0;
    loop
        invariant
            nlen <= hlen,
            bound == hlen - nlen,
            i <= bound,
            hlen == h@.len(),
            nlen == n@.len(),
            forall|k: int| 0 <= k < i ==> !spec_contains_at(h@, n@, k),
        decreases bound - i,
    {
        if match_at(h, n, i) {
            return true;
        }
        if i == bound {
            proof {
                assert forall|k: int| !spec_contains_at(h@, n@, k) by {
                    if 0 <= k <= bound {
                    } else {
                        assert(!(k + n@.len() <= h@.len() && 0 <= k));
                    }
                }
            }
            return false;
        }
        i = i + 1;
    }
}

// ─── Path basename ───────────────────────────────────────────────────────

/// The suffix of `p` after its last backslash; all of `p` when it has
/// none.
pub open spec fn spec_basename(p: Seq<char>) -> Seq<char>
    decreases p.len(),
{
    if p.len() == 0 {
        p
    } else if p.last() == '\\' {
        Seq::empty()
    } else {
        spec_basename(p.drop_last()).push(p.last())
    }
}

proof fn lemma_basename_suffix(p: Seq<char>, i: int)
    requires
        0 <= i <= p.len(),
        i == 0 || p[i - 1] == '\\',
        forall|j: int| i <= j < p.len() ==> p[j] != '\\',
    ensures
        spec_basename(p) == p.skip(i),
    decreases p.len(),
{
    if i == p.len() {
        if i == 0 {
            assert(p.skip(0) =~= p);
        } else {
            assert(p.last() == '\\');
            assert(spec_basename(p) =~= p.skip(i));
        }
    } else {
        assert(p.last() != '\\');
        lemma_basename_suffix(p.drop_last(), i);
        assert(spec_basename(p) == p.drop_last().skip(i).push(p.last()));
        assert(p.drop_last().skip(i).push(p.last()) =~= p.skip(i));
    }
}

/// The final path segment, as the process-name resolver displays it.
pub fn path_basename(p: &str) -> (r: String)
    ensures
        r@ == spec_basename(p@),
{
    let len = p.unicode_len();
    let mut i: usize = len;
    let mut stop = false;
    while i > 0 && !stop
        invariant
            i <= len,
            len == p@.len(),
            stop ==> i > 0 && p@[i - 1] == '\\',
            forall|j: int| i <= j < p@.len() ==> p@[j] != '\\',
        decreases i + (if stop {
            0int
        } else {
            1int
        }),
    {
        if p.get_char(i - 1) == '\\' {
            stop = true;
        } else {
            i = i - 1;
        }
    }
    proof {
        lemma_basename_suffix(p@, i as int);
    }
    let tail = p.substring_char(i, len);
    String::from_str(tail)
}


// ─── Prefix, trim, find ──────────────────────────────────────────────────

pub open spec fn spec_starts_with(h: Seq<char>, p: Seq<char>) -> bool {
    p.len() <= h.len() && h.take(p.len() as int) == p
}

pub fn str_starts_with(h: &str, p: &str) -> (r: bool)
    ensures
        r == spec_starts_with(h@, p@),
{
    let hlen = h.unicode_len();
    let plen = p.unicode_len();
    if plen > hlen {
        return false;
    }
    let mut j: usize = 0;
    while j < plen
        invariant
            j <= plen <= hlen,
            plen == p@.len(),
            hlen == h@.len(),
            forall|k: int| 0 <= k < j ==> h@[k] == p@[k],
        decreases plen - j,
    {
        if h.get_char(j) != p.get_char(j) {
            proof {
                assert(h@.take(p@.len() as int)[j as int] != p@[j as int]);
            }
            return false;
        }
        j = j + 1;
    }
    proof {
        assert(h@.take(p@.len() as int) =~= p@);
    }
    true
}

/// The whitespace the line parser strips at either end.
pub open spec fn spec_is_space(c: char) -> bool {
    c == ' ' || c == '\t' || c == '\r' || c == '\n'
}

pub open spec fn spec_trim_end(s: Seq<char>) -> Seq<char>
    decreases s.len(),
{
    if s.len() > 0 && spec_is_space(s.last()) {
        spec_trim_end(s.drop_last())
    } else {
        s
    }
}

pub open spec fn spec_trim_start(s: Seq<char>) -> Seq<char>
    decreases s.len(),
{
    if s.len() > 0 && spec_is_space(s[0]) {
        spec_trim_start(s.skip(1))
    } else {
        s
    }
}

/// Surrounding whitespace stripped.
pub open spec fn spec_trim_text(s: Seq<char>) -> Seq<char> {
    spec_trim_start(spec_trim_end(s))
}

fn is_space(c: char) -> (r: bool)
    ensures
        r == spec_is_space(c),
{
    c == ' ' || c == '\t' || c == '\r' || c == '\n'
}

/// The bounds of the trimmed middle of `s`.
pub fn trimmed_bounds(s: &str) -> (r: (usize, usize))
    ensures
        r.0 <= r.1 <= s@.len(),
        spec_trim_text(s@) == s@.subrange(r.0 as int, r.1 as int),
{
    let n = s.unicode_len();
    let mut e: usize = n;
    proof {
        assert(s@.take(n as int) =~= s@);
    }
    while e > 0 && is_space(s.get_char(e - 1))
        invariant
            e <= n,
            n == s@.len(),
            spec_trim_end(s@) == spec_trim_end(s@.take(e as int)),
        decreases e,
    {
        proof {
            assert(s@.take(e as int).last() == s@[e - 1]);
            assert(s@.take(e as int).drop_last() =~= s@.take(e - 1));
        }
        e = e - 1;
    }
    proof {
        if s@.take(e as int).len() > 0 && spec_is_space(s@.take(e as int).last()) {
            assert(spec_is_space(s@[e - 1]));
            assert(false);
        }
        assert(spec_trim_end(s@) == s@.take(e as int));
    }
    let ghost endt = s@.take(e as int);
    let mut b: usize = 0;
    proof {
        assert(endt.skip(0) =~= endt);
    }
    while b < e && is_space(s.get_char(b))
        invariant
            b <= e <= n,
            n == s@.len(),
            endt == s@.take(e as int),
            spec_trim_start(endt) == spec_trim_start(endt.skip(b as int)),
        decreases e - b,
    {
        proof {
            assert(endt.skip(b as int)[0] == s@[b as int]);
            assert(endt.skip(b as int).skip(1) =~= endt.skip(b + 1));
        }
        b = b + 1;
    }
    proof {
        if endt.skip(b as int).len() > 0 && spec_is_space(endt.skip(b as int)[0]) {
            assert(spec_is_space(s@[b as int]));
            assert(false);
        }
        assert(spec_trim_text(s@) == endt.skip(b as int));
        assert(endt.skip(b as int) =~= s@.subrange(b as int, e as int));
    }
    (b, e)
}

/// The first occurrence of `c` at or after `i`.
pub open spec fn spec_find_char(s: Seq<char>, c: char, i: int) -> Option<int>
    decreases s.len() - i,
{
    if i < 0 || i >= s.len() {
        None
    } else if s[i] == c {
        Some(i)
    } else {
        spec_find_char(s, c, i + 1)
    }
}

pub fn find_char(s: &str, c: char, from: usize) -> (r: Option<usize>)
    requires
        from <= s@.len(),
    ensures
        (match r {
            Some(j) => from <= j < s@.len() && Some(j as int) == spec_find_char(
                s@,
                c,
                from as int,
            ),
            None => spec_find_char(s@, c, from as int) is None,
        }),
{
    let n = s.unicode_len();
    let mut i = from;
    while i < n
        invariant
            from <= i <= n,
            n == s@.len(),
            spec_find_char(s@, c, from as int) == spec_find_char(s@, c, i as int),
        decreases n - i,
    {
        if s.get_char(i) == c {
            return Some(i);
        }
        i = i + 1;
    }
    None
}


/// The string without its final character; an empty string stays
/// empty.
pub fn drop_last_char(s: &str) -> (r: String)
    ensures
        r@ == (if s@.len() > 0 {
            s@.drop_last()
        } else {
            s@
        }),
{
    let n = s.unicode_len();
    if n == 0 {
        String::from_str(s)
    } else {
        let t = s.substring_char(0, n - 1);
        proof {
            assert(t@ =~= s@.drop_last());
        }
        String::from_str(t)
    }
}


// ─── Byte quantities for display ─────────────────────────────────────────

/// `n / d` scaled to `p` decimal digits and rounded to nearest, ties
/// to even, as binary floating-point display rounds an exactly
/// representable quotient.
pub open spec fn spec_scaled_rounded(n: int, d: int, p10: int) -> int
    recommends
        d >= 1,
        p10 >= 1,
{
    let q = (n * p10) / d;
    let rem = (n * p10) % d;
    if 2 * rem > d {
        q + 1
    } else if 2 * rem < d {
        q
    } else if q % 2 == 0 {
        q
    } else {
        q + 1
    }
}

fn scaled_rounded(n: u64, d: u64, p10: u64) -> (r: u128)
    requires
        1 <= d,
        1 <= p10 <= 100,
    ensures
        r == spec_scaled_rounded(n as int, d as int, p10 as int),
{
    proof {
        assert((n as u128) * (p10 as u128) <= 0xFFFF_FFFF_FFFF_FFFFu128 * 100) by (nonlinear_arith)
            requires
                n as u128 <= 0xFFFF_FFFF_FFFF_FFFFu128,
                p10 as u128 <= 100,
        ;
    }
    let wide = (n as u128) * (p10 as u128);
    let q = wide / (d as u128);
    let rem = wide % (d as u128);
    proof {
        assert((n as int) * (p10 as int) == wide) by (nonlinear_arith)
            requires
                wide == (n as u128) * (p10 as u128),
                n <= u64::MAX,
                p10 <= 100,
        ;
        assert(q <= wide) by (nonlinear_arith)
            requires
                d as u128 >= 1,
                q == wide / (d as u128),
        ;
    }
    if 2 * rem > d as u128 {
        q + 1
    } else if 2 * rem < d as u128 {
        q
    } else if q % 2 == 0 {
        q
    } else {
        q + 1
    }
}

/// The digits of a scaled value split about one decimal place:
/// `v/10 . v%10`.
pub open spec fn spec_one_decimal(v: int) -> Seq<char>
    recommends
        v >= 0,
{
    spec_dec((v / 10) as nat) + seq!['.'] + seq![spec_digit_char(v % 10)]
}

/// Split about two decimal places, the fraction zero-padded.
pub open spec fn spec_two_decimals(v: int) -> Seq<char>
    recommends
        v >= 0,
{
    spec_dec((v / 100) as nat) + seq!['.'] + seq![spec_digit_char((v % 100) / 10)] + seq![
        spec_digit_char(v % 10),
    ]
}

fn push_one_decimal(s: &mut String, v: u128)
    requires
        v <= 0xFFFF_FFFF_FFFF_FFFF,
    ensures
        final(s)@ == old(s)@ + spec_one_decimal(v as int),
{
    push_decimal(s, (v / 10) as u64);
    push_char(s, '.');
    push_char(s, digit_char((v % 10) as u8));
    proof {
        assert(final(s)@ =~= old(s)@ + spec_one_decimal(v as int));
    }
}

fn push_two_decimals(s: &mut String, v: u128)
    requires
        v <= 0xFFFF_FFFF_FFFF_FFFF,
    ensures
        final(s)@ == old(s)@ + spec_two_decimals(v as int),
{
    push_decimal(s, (v / 100) as u64);
    push_char(s, '.');
    push_char(s, digit_char(((v % 100) / 10) as u8));
    push_char(s, digit_char((v % 10) as u8));
    proof {
        assert(final(s)@ =~= old(s)@ + spec_two_decimals(v as int));
    }
}

/// The display form of a byte count: bytes below 1 KiB, then KiB to
/// one decimal, MiB and GiB to two, each rounded to nearest with ties
/// to even.
pub open spec fn spec_format_bytes(bytes: u64) -> Seq<char> {
    if bytes < 1024 {
        spec_dec(bytes as nat) + " B"@
    } else if bytes < 1024 * 1024 {
        spec_one_decimal(spec_scaled_rounded(bytes as int, 1024, 10)) + " KB"@
    } else if bytes < 1024 * 1024 * 1024 {
        spec_two_decimals(spec_scaled_rounded(bytes as int, 1024int * 1024, 100)) + " MB"@
    } else {
        spec_two_decimals(spec_scaled_rounded(bytes as int, 1024int * 1024 * 1024, 100)) + " GB"@
    }
}

pub fn format_bytes(bytes: u64) -> (r: String)
    ensures
        r@ == spec_format_bytes(bytes),
{
    let mut s = String::new();
    if bytes < 1024 {
        push_decimal(&mut s, bytes);
        s.append(" B");
    } else if bytes < 1024 * 1024 {
        let v = scaled_rounded(bytes, 1024, 10);
        proof {
            vstd::arithmetic::div_mod::lemma_div_is_ordered_by_denominator(
                (bytes as int) * 10,
                1,
                1024int,
            );
        }
        push_one_decimal(&mut s, v);
        s.append(" KB");
    } else if bytes < 1024 * 1024 * 1024 {
        let v = scaled_rounded(bytes, 1024 * 1024, 100);
        proof {
            vstd::arithmetic::div_mod::lemma_div_is_ordered_by_denominator(
                (bytes as int) * 100,
                1,
                1024int * 1024,
            );
        }
        push_two_decimals(&mut s, v);
        s.append(" MB");
    } else {
        let v = scaled_rounded(bytes, 1024 * 1024 * 1024, 100);
        proof {
            vstd::arithmetic::div_mod::lemma_div_is_ordered_by_denominator(
                (bytes as int) * 100,
                1,
                1024int * 1024 * 1024,
            );
        }
        push_two_decimals(&mut s, v);
        s.append(" GB");
    }
    proof {
        assert(s@ =~= spec_format_bytes(bytes));
    }
    s
}

/// The compact size of a payload: bytes below 1 KiB, whole KiB below
/// 1 MiB, MiB to one decimal above.
pub open spec fn spec_format_size_compact(bytes: int) -> Seq<char>
    recommends
        bytes >= 0,
{
    if bytes < 1024 {
        spec_dec(bytes as nat) + "B"@
    } else if bytes < 1024 * 1024 {
        spec_dec(spec_scaled_rounded(bytes, 1024, 1) as nat) + "K"@
    } else {
        spec_one_decimal(spec_scaled_rounded(bytes, 1024int * 1024, 10)) + "M"@
    }
}

pub fn format_size_compact(bytes: usize) -> (r: String)
    ensures
        r@ == spec_format_size_compact(bytes as int),
{
    let mut s = String::new();
    if bytes < 1024 {
        push_decimal(&mut s, bytes as u64);
        s.append("B");
    } else if bytes < 1024 * 1024 {
        let v = scaled_rounded(bytes as u64, 1024, 1);
        proof {
            vstd::arithmetic::div_mod::lemma_div_is_ordered_by_denominator(
                bytes as int,
                1,
                1024int,
            );
        }
        push_decimal(&mut s, v as u64);
        s.append("K");
    } else {
        let v = scaled_rounded(bytes as u64, 1024 * 1024, 10);
        proof {
            vstd::arithmetic::div_mod::lemma_div_is_ordered_by_denominator(
                (bytes as int) * 10,
                1,
                1024int * 1024,
            );
        }
        push_one_decimal(&mut s, v);
        s.append("M");
    }
    proof {
        assert(s@ =~= spec_format_size_compact(bytes as int));
    }
    s
}

} // verus!
