//! The capture pipeline's pure core: IPv4 packet parsing, readable
//! snippet extraction, and the bounded snippet ring with its
//! incremental-consumption cursor.

use vstd::prelude::*;

use crate::clock::TimeOfDay;
use crate::net::{ipv4_from_bytes, spec_ipv4_from_bytes, spec_u16_from_be, u16_from_be, IpAddress};
use crate::text::push_char;
use vstd::string::StrSliceExecFns;
use vstd::string::StringExecFns;
use crate::types::{ConnProto, PacketDirection, PacketSnippet, PacketSnippetModel};

verus! {

// ─── Byte classes ────────────────────────────────────────────────────────

/// A byte a payload run may hold: printable ASCII or common whitespace.
pub open spec fn spec_is_text_byte(b: u8) -> bool {
    (0x20 <= b && b <= 0x7E) || b == 0x0D || b == 0x0A || b == 0x09
}

fn is_text_byte(b: u8) -> (r: bool)
    ensures
        r == spec_is_text_byte(b),
{
    (0x20 <= b && b <= 0x7E) || b == 0x0D || b == 0x0A || b == 0x09
}

pub open spec fn spec_is_alnum(b: u8) -> bool {
    (0x30 <= b && b <= 0x39) || (0x41 <= b && b <= 0x5A) || (0x61 <= b && b <= 0x7A)
}

/// The characters that make a run score as word-like text.
pub open spec fn spec_is_score_byte(b: u8) -> bool {
    spec_is_alnum(b) || b == 0x20 || b == 0x2F || b == 0x3A || b == 0x2E || b == 0x2C || b == 0x2D
        || b == 0x3D || b == 0x0A || b == 0x0D
}

fn is_score_byte(b: u8) -> (r: bool)
    ensures
        r == spec_is_score_byte(b),
{
    (0x30 <= b && b <= 0x39) || (0x41 <= b && b <= 0x5A) || (0x61 <= b && b <= 0x7A) || b == 0x20
        || b == 0x2F || b == 0x3A || b == 0x2E || b == 0x2C || b == 0x2D || b == 0x3D || b == 0x0A
        || b == 0x0D
}

/// The wider set the readability check accepts.
pub open spec fn spec_is_readable_byte(b: u8) -> bool {
    spec_is_score_byte(b) || b == 0x5F || b == 0x3F || b == 0x26 || b == 0x22 || b == 0x27 || b
        == 0x7B || b == 0x7D || b == 0x5B || b == 0x5D
}

fn is_readable_byte(b: u8) -> (r: bool)
    ensures
        r == spec_is_readable_byte(b),
{
    is_score_byte(b) || b == 0x5F || b == 0x3F || b == 0x26 || b == 0x22 || b == 0x27 || b == 0x7B
        || b == 0x7D || b == 0x5B || b == 0x5D
}

// ─── Runs of printable text ──────────────────────────────────────────────

/// The maximal runs of text bytes of length at least six, scanned left
/// to right; `start` carries the opening index of the run in progress.
pub open spec fn spec_runs_from(data: Seq<u8>, i: int, start: Option<int>) -> Seq<(int, int)>
    decreases data.len() - i,
{
    if i < 0 || i >= data.len() {
        match start {
            Some(s) => if data.len() - s >= 6 {
                seq![(s, data.len() as int)]
            } else {
                Seq::empty()
            },
            None => Seq::empty(),
        }
    } else {
        let t = spec_is_text_byte(data[i]);
        match start {
            None => spec_runs_from(
                data,
                i + 1,
                if t {
                    Some(i)
                } else {
                    None
                },
            ),
            Some(s) => {
                if t {
                    spec_runs_from(data, i + 1, Some(s))
                } else if i - s >= 6 {
                    seq![(s, i)] + spec_runs_from(data, i + 1, None)
                } else {
                    spec_runs_from(data, i + 1, None)
                }
            },
        }
    }
}

pub open spec fn spec_runs(data: Seq<u8>) -> Seq<(int, int)> {
    spec_runs_from(data, 0, None)
}

pub open spec fn runs_view(v: Seq<(usize, usize)>) -> Seq<(int, int)> {
    Seq::new(v.len(), |i: int| (v[i].0 as int, v[i].1 as int))
}

fn find_runs(data: &[u8]) -> (runs: Vec<(usize, usize)>)
    ensures
        runs_view(runs@) == spec_runs(data@),
        forall|i: int|
            0 <= i < runs@.len() ==> (#[trigger] runs@[i]).0 < runs@[i].1 && runs@[i].1
                <= data@.len(),
{
    let n = data.len();
    let mut runs: Vec<(usize, usize)> = Vec::new();
    let mut start: Option<usize> = None;
    let mut i: usize = 0;
    proof {
        assert(runs_view(runs@) =~= Seq::<(int, int)>::empty());
    }
    while i < n
        invariant
            i <= n,
            n == data@.len(),
            match start {
                Some(s) => s < i || (s == 0 && i == 0),
                None => true,
            },
            match start {
                Some(s) => s <= i,
                None => true,
            },
            spec_runs(data@) == runs_view(runs@) + spec_runs_from(
                data@,
                i as int,
                match start {
                    Some(s) => Some(s as int),
                    None => None,
                },
            ),
            forall|k: int|
                0 <= k < runs@.len() ==> (#[trigger] runs@[k]).0 < runs@[k].1 && runs@[k].1
                    <= data@.len(),
        decreases n - i,
    {
        let t = is_text_byte(data[i]);
        match start {
            None => {
                if t {
                    start = Some(i);
                }
            },
            Some(s) => {
                if !t {
                    if i - s >= 6 {
                        let ghost before = runs_view(runs@);
                        runs.push((s, i));
                        proof {
                            assert(runs_view(runs@) =~= before.push((s as int, i as int)));
                            assert(before + (seq![(s as int, i as int)] + spec_runs_from(
                                data@,
                                i + 1,
                                None,
                            )) =~= runs_view(runs@) + spec_runs_from(data@, i + 1, None));
                        }
                    }
                    start = None;
                }
            },
        }
        i = i + 1;
    }
    if let Some(s) = start {
        if n - s >= 6 {
            let ghost before = runs_view(runs@);
            runs.push((s, n));
            proof {
                assert(runs_view(runs@) =~= before.push((s as int, n as int)));
                assert(before + seq![(s as int, n as int)] =~= runs_view(runs@));
            }
        } else {
            proof {
                assert(runs_view(runs@) + Seq::<(int, int)>::empty() =~= runs_view(runs@));
            }
        }
    } else {
        proof {
            assert(runs_view(runs@) + Seq::<(int, int)>::empty() =~= runs_view(runs@));
        }
    }
    runs
}

// ─── Scoring ─────────────────────────────────────────────────────────────

/// How many bytes of `data[s..e]` a class holds; `wide` selects the
/// readability class over the scoring class.
pub open spec fn spec_count(data: Seq<u8>, s: int, e: int, wide: bool) -> int
    decreases e - s,
{
    if s >= e {
        0
    } else {
        spec_count(data, s, e - 1, wide) + (if (if wide {
            spec_is_readable_byte(data[e - 1])
        } else {
            spec_is_score_byte(data[e - 1])
        }) {
            1int
        } else {
            0int
        })
    }
}

fn count_bytes(data: &[u8], s: usize, e: usize, wide: bool) -> (c: usize)
    requires
        s <= e <= data@.len(),
    ensures
        c == spec_count(data@, s as int, e as int, wide),
        c <= e - s,
{
    let mut c: usize = 0;
    let mut i: usize = s;
    while i < e
        invariant
            s <= i <= e <= data@.len(),
            c == spec_count(data@, s as int, i as int, wide),
            c <= i - s,
        decreases e - i,
    {
        let hit = if wide {
            is_readable_byte(data[i])
        } else {
            is_score_byte(data[i])
        };
        if hit {
            c = c + 1;
        }
        i = i + 1;
    }
    c
}

/// A run's score: its length times the percentage of word-like bytes.
pub open spec fn spec_run_score(data: Seq<u8>, s: int, e: int) -> int {
    let l = e - s;
    let d = if l < 1 {
        1int
    } else {
        l
    };
    l * ((spec_count(data, s, e, false) * 100) / d)
}

/// The readability percentage of the chosen run, over the wider class.
pub open spec fn spec_read_ratio(data: Seq<u8>, s: int, e: int) -> int {
    let l = e - s;
    let d = if l < 1 {
        1int
    } else {
        l
    };
    (spec_count(data, s, e, true) * 100) / d
}

fn run_score(data: &[u8], s: usize, e: usize) -> (sc: u128)
    requires
        s <= e <= data@.len(),
    ensures
        sc == spec_run_score(data@, s as int, e as int),
{
    let c = count_bytes(data, s, e, false);
    let l = e - s;
    let d: u128 = if l < 1 {
        1
    } else {
        l as u128
    };
    let ratio = ((c as u128) * 100) / d;
    proof {
        let ci = c as int;
        let di = d as int;
        let li = l as int;
        assert(ci * 100 <= di * 100) by (nonlinear_arith)
            requires
                ci <= di,
        ;
        assert((ci * 100) / di <= (di * 100) / di) by (nonlinear_arith)
            requires
                di >= 1,
                ci * 100 <= di * 100,
        ;
        assert((di * 100) / di == 100) by (nonlinear_arith)
            requires
                di >= 1,
        ;
        assert(li * ((ci * 100) / di) <= li * 100) by (nonlinear_arith)
            requires
                li >= 0,
                (ci * 100) / di <= 100,
        ;
    }
    (l as u128) * ratio
}

fn read_ratio(data: &[u8], s: usize, e: usize) -> (ra: u128)
    requires
        s <= e <= data@.len(),
    ensures
        ra == spec_read_ratio(data@, s as int, e as int),
{
    let c = count_bytes(data, s, e, true);
    let l = e - s;
    let d: u128 = if l < 1 {
        1
    } else {
        l as u128
    };
    ((c as u128) * 100) / d
}

/// The index of the best-scoring run, the last one winning ties, as a
/// left-to-right scan with replace-on-equal computes it.
pub open spec fn spec_best_from(data: Seq<u8>, runs: Seq<(int, int)>, i: int, best: int) -> int
    decreases runs.len() - i,
{
    if i < 0 || i >= runs.len() {
        best
    } else if spec_run_score(data, runs[i].0, runs[i].1) >= spec_run_score(
        data,
        runs[best].0,
        runs[best].1,
    ) {
        spec_best_from(data, runs, i + 1, i)
    } else {
        spec_best_from(data, runs, i + 1, best)
    }
}

fn best_run(data: &[u8], runs: &Vec<(usize, usize)>) -> (b: usize)
    requires
        runs@.len() > 0,
        forall|i: int|
            0 <= i < runs@.len() ==> (#[trigger] runs@[i]).0 <= runs@[i].1 && runs@[i].1
                <= data@.len(),
    ensures
        b == spec_best_from(data@, runs_view(runs@), 1, 0),
        b < runs@.len(),
{
    let n = runs.len();
    let mut best: usize = 0;
    let mut best_score = run_score(data, runs[0].0, runs[0].1);
    let mut i: usize = 1;
    while i < n
        invariant
            1 <= i <= n,
            best < i,
            n == runs@.len(),
            forall|k: int|
                0 <= k < runs@.len() ==> (#[trigger] runs@[k]).0 <= runs@[k].1 && runs@[k].1
                    <= data@.len(),
            best_score == spec_run_score(
                data@,
                runs_view(runs@)[best as int].0,
                runs_view(runs@)[best as int].1,
            ),
            spec_best_from(data@, runs_view(runs@), 1, 0) == spec_best_from(
                data@,
                runs_view(runs@),
                i as int,
                best as int,
            ),
        decreases n - i,
    {
        let sc = run_score(data, runs[i].0, runs[i].1);
        if sc >= best_score {
            best = i;
            best_score = sc;
        }
        i = i + 1;
    }
    best
}

// ─── Rendering ───────────────────────────────────────────────────────────

/// The display form of a run: printable bytes verbatim, whitespace
/// collapsed to one `" | "` separator, stopping once `max_len`
/// characters stand.
pub open spec fn spec_render(
    data: Seq<u8>,
    i: int,
    e: int,
    max_len: int,
    acc: Seq<char>,
    ws: bool,
) -> Seq<char>
    decreases e - i,
{
    if i < 0 || i >= e || e > data.len() {
        acc
    } else if acc.len() >= max_len {
        acc
    } else {
        let b = data[i];
        if 0x20 <= b && b <= 0x7E {
            spec_render(data, i + 1, e, max_len, acc.push(b as char), false)
        } else if b == 0x0D || b == 0x0A || b == 0x09 {
            if !ws {
                spec_render(data, i + 1, e, max_len, acc + " | "@, true)
            } else {
                spec_render(data, i + 1, e, max_len, acc, true)
            }
        } else {
            spec_render(data, i + 1, e, max_len, acc, ws)
        }
    }
}

/// All trailing `" | "` separators dropped.
pub open spec fn spec_trim_sep(s: Seq<char>) -> Seq<char>
    decreases s.len(),
{
    if s.len() >= 3 && s.subrange(s.len() - 3, s.len() as int) == " | "@ {
        spec_trim_sep(s.take(s.len() - 3))
    } else {
        s
    }
}

pub open spec fn spec_trim_end_spaces(s: Seq<char>) -> Seq<char>
    decreases s.len(),
{
    if s.len() > 0 && s.last() == ' ' {
        spec_trim_end_spaces(s.drop_last())
    } else {
        s
    }
}

pub open spec fn spec_trim_start_spaces(s: Seq<char>) -> Seq<char>
    decreases s.len(),
{
    if s.len() > 0 && s[0] == ' ' {
        spec_trim_start_spaces(s.skip(1))
    } else {
        s
    }
}

/// The snippet a payload yields: the rendering of its best readable
/// run, trimmed; empty when no run qualifies or the run fails the
/// readability check.
pub open spec fn spec_extract(data: Seq<u8>, max_len: int) -> Seq<char> {
    let runs = spec_runs(data);
    if runs.len() == 0 {
        Seq::empty()
    } else {
        let b = spec_best_from(data, runs, 1, 0);
        let s = runs[b].0;
        let e = runs[b].1;
        if spec_read_ratio(data, s, e) < 40 {
            Seq::empty()
        } else {
            spec_trim_start_spaces(
                spec_trim_end_spaces(
                    spec_trim_sep(spec_render(data, s, e, max_len, Seq::empty(), false)),
                ),
            )
        }
    }
}

proof fn lemma_sep_chars()
    ensures
        " | "@.len() == 3,
        " | "@[0] == ' ',
        " | "@[1] == '|',
        " | "@[2] == ' ',
{
    reveal_strlit(" | ");
}

fn render_run(data: &[u8], s: usize, e: usize, max_len: usize) -> (r: (String, usize))
    requires
        s <= e <= data@.len(),
        max_len + 3 <= usize::MAX,
    ensures
        r.0@ == spec_render(data@, s as int, e as int, max_len as int, Seq::empty(), false),
        r.1 == r.0@.len(),
    {
    let mut out = String::new();
    let mut rlen: usize = 0;
    let mut ws = false;
    let mut i: usize = s;
    proof {
        assert(out@ =~= Seq::<char>::empty());
    }
    while i < e
        invariant
            s <= i <= e <= data@.len(),
            max_len + 3 <= usize::MAX,
            rlen == out@.len(),
            spec_render(data@, s as int, e as int, max_len as int, Seq::empty(), false)
                == spec_render(data@, i as int, e as int, max_len as int, out@, ws),
        decreases e - i,
    {
        if rlen >= max_len {
            return (out, rlen);
        }
        let b = data[i];
        if 0x20 <= b && b <= 0x7E {
            push_char(&mut out, b as char);
            rlen = rlen + 1;
            ws = false;
        } else if b == 0x0D || b == 0x0A || b == 0x09 {
            if !ws {
                let ghost before = out@;
                push_char(&mut out, ' ');
                push_char(&mut out, '|');
                push_char(&mut out, ' ');
                rlen = rlen + 3;
                ws = true;
                proof {
                    lemma_sep_chars();
                    assert(out@ =~= before + " | "@);
                }
            }
        }
        i = i + 1;
    }
    (out, rlen)
}

/// Finds the most readable fragment of a payload: the best-scoring run
/// of printable bytes, rendered for display, or the empty string when
/// nothing qualifies.
pub fn extract_best_snippet(data: &[u8], max_len: usize) -> (r: String)
    requires
        max_len + 3 <= usize::MAX,
    ensures
        r@ == spec_extract(data@, max_len as int),
{
    let runs = find_runs(data);
    if runs.len() == 0 {
        proof {
            assert(runs_view(runs@).len() == 0);
        }
        return String::new();
    }
    let b = best_run(data, &runs);
    proof {
        assert(runs_view(runs@)[b as int] == (runs@[b as int].0 as int, runs@[b as int].1 as int));
    }
    let s = runs[b].0;
    let e = runs[b].1;
    let ratio = read_ratio(data, s, e);
    if ratio < 40 {
        return String::new();
    }
    let (rendered, rlen) = render_run(data, s, e, max_len);

    // Trim trailing separators, then surrounding spaces.
    let rs = rendered.as_str();
    let ghost full = rendered@;
    let mut endi: usize = rlen;
    proof {
        assert(full.take(endi as int) =~= full);
    }
    while endi >= 3 && rs.get_char(endi - 3) == ' ' && rs.get_char(endi - 2) == '|' && rs.get_char(
        endi - 1,
    ) == ' '
        invariant
            endi <= rlen,
            rlen == full.len(),
            full == rs@,
            spec_trim_sep(full) == spec_trim_sep(full.take(endi as int)),
        decreases endi,
    {
        proof {
            lemma_sep_chars();
            assert(full.take(endi as int).subrange(endi - 3, endi as int) =~= " | "@);
            assert(full.take(endi as int).take(endi - 3) =~= full.take(endi - 3));
        }
        endi = endi - 3;
    }
    proof {
        lemma_sep_chars();
        let pre = full.take(endi as int);
        if pre.len() >= 3 && pre.subrange(pre.len() - 3, pre.len() as int) == " | "@ {
            assert(pre[endi - 3] == ' ' && pre[endi - 2] == '|' && pre[endi - 1] == ' ');
            assert(false);
        }
        assert(spec_trim_sep(full) == full.take(endi as int));
    }
    let ghost sep_trimmed = full.take(endi as int);
    while endi > 0 && rs.get_char(endi - 1) == ' '
        invariant
            endi <= rlen,
            rlen == full.len(),
            full == rs@,
            full.take(endi as int).len() == endi,
            spec_trim_end_spaces(sep_trimmed) == spec_trim_end_spaces(full.take(endi as int)),
        decreases endi,
    {
        proof {
            assert(full.take(endi as int).last() == full[endi - 1]);
            assert(full.take(endi as int).drop_last() =~= full.take(endi - 1));
        }
        endi = endi - 1;
    }
    proof {
        if full.take(endi as int).len() > 0 && full.take(endi as int).last() == ' ' {
            assert(full[endi - 1] == ' ');
            assert(false);
        }
        assert(spec_trim_end_spaces(sep_trimmed) == full.take(endi as int));
    }
    let ghost end_trimmed = full.take(endi as int);
    let mut starti: usize = 0;
    proof {
        assert(end_trimmed.skip(0) =~= end_trimmed);
    }
    while starti < endi && rs.get_char(starti) == ' '
        invariant
            starti <= endi <= rlen,
            rlen == full.len(),
            full == rs@,
            end_trimmed == full.take(endi as int),
            spec_trim_start_spaces(end_trimmed) == spec_trim_start_spaces(
                end_trimmed.skip(starti as int),
            ),
        decreases endi - starti,
    {
        proof {
            assert(end_trimmed.skip(starti as int)[0] == full[starti as int]);
            assert(end_trimmed.skip(starti as int).skip(1) =~= end_trimmed.skip(starti + 1));
        }
        starti = starti + 1;
    }
    proof {
        let tail = end_trimmed.skip(starti as int);
        if tail.len() > 0 && tail[0] == ' ' {
            assert(full[starti as int] == ' ');
            assert(false);
        }
        assert(spec_trim_start_spaces(end_trimmed) == tail);
    }
    let trimmed = rs.substring_char(starti, endi);
    proof {
        assert(trimmed@ =~= end_trimmed.skip(starti as int));
    }
    String::from_str(trimmed)
}



// ─── The snippet length bound ────────────────────────────────────────────

/// A sequence either fits the cap or overshoots it by at most the
/// separator just appended, which then stands at its end.
spec fn render_bound(s: Seq<char>, max_len: int) -> bool {
    s.len() <= max_len || (s.len() <= max_len + 2 && s.len() >= 3 && s.subrange(
        s.len() - 3,
        s.len() as int,
    ) == " | "@)
}

proof fn lemma_render_bounded(
    data: Seq<u8>,
    i: int,
    e: int,
    max_len: int,
    acc: Seq<char>,
    ws: bool,
)
    requires
        max_len >= 0,
        render_bound(acc, max_len),
    ensures
        render_bound(spec_render(data, i, e, max_len, acc, ws), max_len),
    decreases e - i,
{
    if i < 0 || i >= e || e > data.len() {
    } else if acc.len() >= max_len {
    } else {
        let b = data[i];
        if 0x20 <= b && b <= 0x7E {
            lemma_render_bounded(data, i + 1, e, max_len, acc.push(b as char), false);
        } else if b == 0x0D || b == 0x0A || b == 0x09 {
            if !ws {
                lemma_sep_chars();
                assert((acc + " | "@).subrange(acc.len() as int, acc.len() + 3int) =~= " | "@);
                lemma_render_bounded(data, i + 1, e, max_len, acc + " | "@, true);
            } else {
                lemma_render_bounded(data, i + 1, e, max_len, acc, true);
            }
        } else {
            lemma_render_bounded(data, i + 1, e, max_len, acc, ws);
        }
    }
}

proof fn lemma_trim_sep_bounded(s: Seq<char>, max_len: int)
    requires
        max_len >= 0,
        render_bound(s, max_len),
    ensures
        spec_trim_sep(s).len() <= max_len,
    decreases s.len(),
{
    if s.len() >= 3 && s.subrange(s.len() - 3, s.len() as int) == " | "@ {
        lemma_trim_sep_bounded(s.take(s.len() - 3), max_len);
    }
}

proof fn lemma_trim_spaces_le(s: Seq<char>)
    ensures
        spec_trim_end_spaces(s).len() <= s.len(),
        spec_trim_start_spaces(s).len() <= s.len(),
    decreases s.len(),
{
    if s.len() > 0 {
        if s.last() == ' ' {
            lemma_trim_spaces_le(s.drop_last());
        }
        if s[0] == ' ' {
            lemma_trim_spaces_le(s.skip(1));
        }
    }
}

/// A snippet never exceeds its cap: the renderer stops at the cap and
/// an overshooting separator is trimmed away.
pub proof fn lemma_snippet_bounded(data: Seq<u8>, max_len: int)
    requires
        max_len >= 0,
    ensures
        spec_extract(data, max_len).len() <= max_len,
{
    let runs = spec_runs(data);
    if runs.len() != 0 {
        let b = spec_best_from(data, runs, 1, 0);
        let s = runs[b].0;
        let e = runs[b].1;
        if spec_read_ratio(data, s, e) >= 40 {
            lemma_render_bounded(data, s, e, max_len, Seq::empty(), false);
            let rendered = spec_render(data, s, e, max_len, Seq::empty(), false);
            lemma_trim_sep_bounded(rendered, max_len);
            lemma_trim_spaces_le(spec_trim_sep(rendered));
            lemma_trim_spaces_le(spec_trim_end_spaces(spec_trim_sep(rendered)));
        }
    }
}

// ─── Packet parsing ──────────────────────────────────────────────────────

/// The tail of a parse once ports and payload offset are known: drops
/// payload-less packets and unreadable payloads.
pub open spec fn spec_packet_result(
    pkt: Seq<u8>,
    local_ip: u32,
    now: TimeOfDay,
    proto: ConnProto,
    src: u32,
    dst: u32,
    sp: u16,
    dp: u16,
    off: int,
) -> Option<PacketSnippetModel> {
    if off >= pkt.len() {
        None
    } else {
        let snippet = spec_extract(pkt.skip(off), 200);
        if snippet.len() == 0 {
            None
        } else {
            Some(
                PacketSnippetModel {
                    timestamp: now,
                    direction: if src == local_ip {
                        PacketDirection::Outbound
                    } else {
                        PacketDirection::Inbound
                    },
                    src_ip: IpAddress::V4(src),
                    dst_ip: IpAddress::V4(dst),
                    src_port: sp,
                    dst_port: dp,
                    protocol: proto,
                    snippet,
                    payload_size: (pkt.len() - off) as usize,
                },
            )
        }
    }
}

/// What one raw IPv4 datagram yields: a snippet for a TCP or UDP packet
/// with a readable payload; nothing for anything shorter than an IPv4
/// header, of another IP version or protocol, loopback to loopback,
/// without payload, or without readable text.
pub open spec fn spec_parse_packet(pkt: Seq<u8>, local_ip: u32, now: TimeOfDay) -> Option<
    PacketSnippetModel,
> {
    if pkt.len() < 20 {
        None
    } else if (pkt[0] >> 4) & 0xF != 4 {
        None
    } else {
        let ihl = ((pkt[0] & 0xF) as int) * 4;
        if pkt.len() < ihl {
            None
        } else {
            let protocol = pkt[9];
            let src = spec_ipv4_from_bytes(pkt[12], pkt[13], pkt[14], pkt[15]);
            let dst = spec_ipv4_from_bytes(pkt[16], pkt[17], pkt[18], pkt[19]);
            if IpAddress::V4(src).spec_is_loopback() && IpAddress::V4(dst).spec_is_loopback() {
                None
            } else if protocol == 6 {
                if pkt.len() < ihl + 20 {
                    None
                } else {
                    let sp = spec_u16_from_be(pkt[ihl], pkt[ihl + 1]);
                    let dp = spec_u16_from_be(pkt[ihl + 2], pkt[ihl + 3]);
                    let off = ihl + ((pkt[ihl + 12] >> 4) & 0xF) * 4;
                    spec_packet_result(pkt, local_ip, now, ConnProto::Tcp, src, dst, sp, dp, off)
                }
            } else if protocol == 17 {
                if pkt.len() < ihl + 8 {
                    None
                } else {
                    let sp = spec_u16_from_be(pkt[ihl], pkt[ihl + 1]);
                    let dp = spec_u16_from_be(pkt[ihl + 2], pkt[ihl + 3]);
                    spec_packet_result(
                        pkt,
                        local_ip,
                        now,
                        ConnProto::Udp,
                        src,
                        dst,
                        sp,
                        dp,
                        ihl + 8,
                    )
                }
            } else {
                None
            }
        }
    }
}

/// Parses one captured IPv4 datagram. `local_ip` is the capture
/// socket's own v4 address as a value (first octet most significant);
/// a packet sourced from it is outbound.
pub fn parse_packet(pkt: &[u8], local_ip: u32, now: TimeOfDay) -> (r: Option<PacketSnippet>)
    ensures
        r.deep_view() == spec_parse_packet(pkt@, local_ip, now),
{
    if pkt.len() < 20 {
        return None;
    }
    let b0 = pkt[0];
    if (b0 >> 4) & 0xF != 4 {
        return None;
    }
    let ihl = ((b0 & 0xF) as usize) * 4;
    if pkt.len() < ihl {
        return None;
    }
    let protocol = pkt[9];
    let src = ipv4_from_bytes(pkt[12], pkt[13], pkt[14], pkt[15]);
    let dst = ipv4_from_bytes(pkt[16], pkt[17], pkt[18], pkt[19]);
    if IpAddress::V4(src).is_loopback() && IpAddress::V4(dst).is_loopback() {
        return None;
    }
    let sp: u16;
    let dp: u16;
    let off: usize;
    let proto: ConnProto;
    if protocol == 6 {
        if pkt.len() < ihl + 20 {
            return None;
        }
        sp = u16_from_be(pkt[ihl], pkt[ihl + 1]);
        dp = u16_from_be(pkt[ihl + 2], pkt[ihl + 3]);
        off = ihl + ((pkt[ihl + 12] >> 4) & 0xF) as usize * 4;
        proto = ConnProto::Tcp;
    } else if protocol == 17 {
        if pkt.len() < ihl + 8 {
            return None;
        }
        sp = u16_from_be(pkt[ihl], pkt[ihl + 1]);
        dp = u16_from_be(pkt[ihl + 2], pkt[ihl + 3]);
        off = ihl + 8;
        proto = ConnProto::Udp;
    } else {
        return None;
    }
    if off >= pkt.len() {
        return None;
    }
    let payload = &pkt[off..pkt.len()];
    proof {
        assert(payload@ =~= pkt@.skip(off as int));
    }
    let snippet = extract_best_snippet(payload, 200);
    if snippet.as_str().unicode_len() == 0 {
        return None;
    }
    Some(
        PacketSnippet {
            timestamp: now,
            direction: if src == local_ip {
                PacketDirection::Outbound
            } else {
                PacketDirection::Inbound
            },
            src_ip: IpAddress::V4(src),
            dst_ip: IpAddress::V4(dst),
            src_port: sp,
            dst_port: dp,
            protocol: proto,
            snippet,
            payload_size: pkt.len() - off,
        },
    )
}

// ─── The snippet ring ────────────────────────────────────────────────────

/// A sequence bounded to its newest `max` elements.
pub open spec fn spec_ring_trim(s: Seq<PacketSnippetModel>, max: int) -> Seq<PacketSnippetModel> {
    if s.len() <= max {
        s
    } else {
        s.skip(s.len() - max)
    }
}

/// The pure state of the packet sniffer: the bounded snippet ring, the
/// total-accepted counter, the consumption cursor of `drain_new`, the
/// active flag and the error slot. The capture thread and the locks
/// around this state live outside the crate.
pub struct PacketSniffer {
    /// Captured snippets, oldest first, at most `max_snippets`.
    pub snippets: Vec<PacketSnippet>,
    /// The bound of the ring.
    pub max_snippets: usize,
    /// Whether capture is (requested to be) running.
    pub active: bool,
    /// The capture error to display, if starting failed.
    pub error_msg: Option<String>,
    /// Snippets ever accepted, evicted ones included.
    pub total_added: usize,
    /// How many accepted snippets `drain_new` has consumed.
    pub consumed_count: usize,
}

impl PacketSniffer {
    pub open spec fn ring_view(&self) -> Seq<PacketSnippetModel> {
        self.snippets.deep_view()
    }

    /// The ring never outgrows its bound and the cursor never passes
    /// the total.
    pub open spec fn wf(&self) -> bool {
        &&& self.ring_view().len() <= self.max_snippets
        &&& self.consumed_count <= self.total_added
        &&& self.ring_view().len() <= self.total_added
    }

    pub fn new(max_snippets: usize) -> (s: PacketSniffer)
        ensures
            s.ring_view() == Seq::<PacketSnippetModel>::empty(),
            s.max_snippets == max_snippets,
            !s.active,
            s.error_msg is None,
            s.total_added == 0,
            s.consumed_count == 0,
            s.wf(),
    {
        let s = PacketSniffer {
            snippets: Vec::new(),
            max_snippets,
            active: false,
            error_msg: None,
            total_added: 0,
            consumed_count: 0,
        };
        proof {
            assert(s.ring_view() =~= Seq::<PacketSnippetModel>::empty());
        }
        s
    }

    /// Takes one parsed snippet into the ring, evicting from the oldest
    /// end past the bound. The total counter is limited by its width.
    pub fn accept(&mut self, snippet: PacketSnippet)
        requires
            old(self).wf(),
            old(self).total_added < usize::MAX,
        ensures
            final(self).ring_view() == spec_ring_trim(
                old(self).ring_view().push(snippet@),
                old(self).max_snippets as int,
            ),
            final(self).ring_view().len() == (if old(self).ring_view().len() + 1 > old(
                self,
            ).max_snippets {
                old(self).max_snippets as int
            } else {
                old(self).ring_view().len() + 1int
            }),
            final(self).total_added == old(self).total_added + 1,
            final(self).max_snippets == old(self).max_snippets,
            final(self).consumed_count == old(self).consumed_count,
            final(self).active == old(self).active,
            final(self).error_msg == old(self).error_msg,
            final(self).wf(),
    {
        self.snippets.push(snippet);
        self.total_added = self.total_added + 1;
        proof {
            assert(self.ring_view() =~= old(self).ring_view().push(snippet@));
        }
        while self.snippets.len() > self.max_snippets
            invariant
                spec_ring_trim(self.ring_view(), self.max_snippets as int) == spec_ring_trim(
                    old(self).ring_view().push(snippet@),
                    old(self).max_snippets as int,
                ),
                self.ring_view().len() <= old(self).ring_view().len() + 1,
                self.max_snippets == old(self).max_snippets,
                self.total_added == old(self).total_added + 1,
                self.consumed_count == old(self).consumed_count,
                self.active == old(self).active,
                self.error_msg == old(self).error_msg,
            decreases self.snippets.len(),
        {
            let ghost before = self.ring_view();
            self.snippets.remove(0);
            proof {
                assert(self.ring_view() =~= before.skip(1));
                assert(spec_ring_trim(before, self.max_snippets as int) =~= spec_ring_trim(
                    before.skip(1),
                    self.max_snippets as int,
                ));
            }
        }
    }

    /// The last `count` snippets, oldest first.
    pub fn recent(&self, count: usize) -> (r: Vec<PacketSnippet>)
        ensures
            r.deep_view() == self.ring_view().skip(
                if count < self.ring_view().len() {
                    self.ring_view().len() - count
                } else {
                    0
                },
            ),
    {
        let len = self.snippets.len();
        let start = if count < len {
            len - count
        } else {
            0
        };
        let mut r: Vec<PacketSnippet> = Vec::new();
        let mut i: usize = start;
        proof {
            assert(r.deep_view() =~= Seq::<PacketSnippetModel>::empty());
        }
        while i < len
            invariant
                start <= i <= len,
                len == self.snippets@.len(),
                r.deep_view() == self.ring_view().subrange(start as int, i as int),
            decreases len - i,
        {
            let ghost before = r.deep_view();
            r.push(self.snippets[i].clone());
            proof {
                assert(r.deep_view() =~= before.push(self.ring_view()[i as int]));
                assert(before.push(self.ring_view()[i as int]) =~= self.ring_view().subrange(
                    start as int,
                    i + 1,
                ));
            }
            i = i + 1;
        }
        proof {
            assert(self.ring_view().subrange(start as int, len as int) =~= self.ring_view().skip(
                start as int,
            ));
        }
        r
    }

    /// The snippets accepted since the previous call: the newest
    /// `total_added - consumed_count` ring entries, which is the whole
    /// tail that remains when evictions have passed the cursor. Moves
    /// the cursor to the total.
    pub fn drain_new(&mut self) -> (r: Vec<PacketSnippet>)
        requires
            old(self).wf(),
        ensures
            final(self).wf(),
            final(self).snippets == old(self).snippets,
            final(self).max_snippets == old(self).max_snippets,
            final(self).total_added == old(self).total_added,
            final(self).active == old(self).active,
            final(self).error_msg == old(self).error_msg,
            final(self).consumed_count == old(self).total_added,
            r.deep_view() == (if old(self).total_added <= old(self).consumed_count {
                Seq::<PacketSnippetModel>::empty()
            } else {
                let new_count = old(self).total_added - old(self).consumed_count;
                old(self).ring_view().skip(
                    if new_count < old(self).ring_view().len() {
                        old(self).ring_view().len() - new_count
                    } else {
                        0
                    },
                )
            }),
    {
        let total = self.total_added;
        if total <= self.consumed_count {
            self.consumed_count = total;
            let r: Vec<PacketSnippet> = Vec::new();
            proof {
                assert(r.deep_view() =~= Seq::<PacketSnippetModel>::empty());
            }
            return r;
        }
        let new_count = total - self.consumed_count;
        self.consumed_count = total;
        self.recent(new_count)
    }

    pub fn get_error(&self) -> (r: Option<String>)
        ensures
            r.deep_view() == self.error_msg.deep_view(),
    {
        match &self.error_msg {
            Some(e) => Some(e.clone()),
            None => None,
        }
    }

    /// Stores the capture error the thread hit while starting.
    pub fn set_error(&mut self, msg: &str)
        ensures
            final(self).error_msg.deep_view() == Some(msg@),
            final(self).snippets == old(self).snippets,
            final(self).max_snippets == old(self).max_snippets,
            final(self).total_added == old(self).total_added,
            final(self).consumed_count == old(self).consumed_count,
            final(self).active == old(self).active,
            old(self).wf() ==> final(self).wf(),
    {
        self.error_msg = Some(String::from_str(msg));
    }

    /// Clears the error once capture is live.
    pub fn clear_error(&mut self)
        ensures
            final(self).error_msg is None,
            final(self).snippets == old(self).snippets,
            final(self).max_snippets == old(self).max_snippets,
            final(self).total_added == old(self).total_added,
            final(self).consumed_count == old(self).consumed_count,
            final(self).active == old(self).active,
            old(self).wf() ==> final(self).wf(),
    {
        self.error_msg = None;
    }

    /// Requests capture: reports whether a capture thread must be
    /// spawned, which is only when none runs yet.
    pub fn start(&mut self) -> (spawn: bool)
        ensures
            spawn == !old(self).active,
            final(self).active,
            final(self).snippets == old(self).snippets,
            final(self).max_snippets == old(self).max_snippets,
            final(self).total_added == old(self).total_added,
            final(self).consumed_count == old(self).consumed_count,
            final(self).error_msg == old(self).error_msg,
            old(self).wf() ==> final(self).wf(),
    {
        if self.active {
            false
        } else {
            self.active = true;
            true
        }
    }

    /// Requests the capture thread to wind down.
    pub fn stop(&mut self)
        ensures
            !final(self).active,
            final(self).snippets == old(self).snippets,
            final(self).max_snippets == old(self).max_snippets,
            final(self).total_added == old(self).total_added,
            final(self).consumed_count == old(self).consumed_count,
            final(self).error_msg == old(self).error_msg,
            old(self).wf() ==> final(self).wf(),
    {
        self.active = false;
    }

    /// Flips the capture flag; the thread around this state polls it.
    pub fn set_active(&mut self, on: bool)
        ensures
            final(self).active == on,
            final(self).snippets == old(self).snippets,
            final(self).max_snippets == old(self).max_snippets,
            final(self).total_added == old(self).total_added,
            final(self).consumed_count == old(self).consumed_count,
            final(self).error_msg == old(self).error_msg,
            old(self).wf() ==> final(self).wf(),
    {
        self.active = on;
    }

    pub fn is_active(&self) -> (r: bool)
        ensures
            r == self.active,
    {
        self.active
    }
}



/// Every snippet a parsed packet yields holds at most 200 characters.
pub proof fn lemma_parsed_snippet_bounded(pkt: Seq<u8>, local_ip: u32, now: TimeOfDay)
    ensures
        (match spec_parse_packet(pkt, local_ip, now) {
            Some(m) => m.snippet.len() <= 200,
            None => true,
        }),
{
    assert forall|off: int| true implies spec_extract(pkt.skip(off), 200).len() <= 200 by {
        lemma_snippet_bounded(pkt.skip(off), 200);
    }
}

} // verus!
