//! Rendering per-pipeline throughput as one progress line.
//!
//! Once per scheduling tick the reporter snapshots every live pipeline's
//! counters, in resolver order, and renders them as a single line —
//! `idx [ingested | delivered]` per pipeline, joined by `  / `, counters
//! right-aligned to six columns — without touching pipeline state.

use vstd::prelude::*;
use vstd::string::StrSliceExecFns;
use vstd::string::StringExecFns;

use crate::pipeline::Pipeline;
use crate::pipeline::Stats;

verus! {

/// The character for one decimal digit value.
pub open spec fn dec_digit(d: int) -> char {
    if d == 0 {
        '0'
    } else if d == 1 {
        '1'
    } else if d == 2 {
        '2'
    } else if d == 3 {
        '3'
    } else if d == 4 {
        '4'
    } else if d == 5 {
        '5'
    } else if d == 6 {
        '6'
    } else if d == 7 {
        '7'
    } else if d == 8 {
        '8'
    } else {
        '9'
    }
}

/// The decimal numeral for `n`, most significant digit first, without
/// leading zeros (`0` itself reads `"0"`).
pub open spec fn dec_str(n: int) -> Seq<char>
    decreases n,
{
    if n < 10 {
        seq![dec_digit(n)]
    } else {
        dec_str(n / 10).push(dec_digit(n % 10))
    }
}

/// `k` spaces.
pub open spec fn spaces(k: int) -> Seq<char>
    decreases k,
{
    if k <= 0 {
        Seq::empty()
    } else {
        spaces(k - 1).push(' ')
    }
}

/// `s` right-aligned to six columns (left untouched when already wider).
pub open spec fn pad6(s: Seq<char>) -> Seq<char> {
    if s.len() >= 6 {
        s
    } else {
        spaces(6 - s.len()) + s
    }
}

/// One pipeline's cell on the progress line.
pub open spec fn entry_str(idx: int, st: Stats) -> Seq<char> {
    dec_str(idx) + " ["@ + pad6(dec_str(st.ingested as int)) + " | "@ + pad6(
        dec_str(st.delivered as int),
    ) + "]"@
}

/// The cells from position `idx` on, joined by the separator.
pub open spec fn render_from(stats: Seq<Stats>, idx: int) -> Seq<char>
    decreases stats.len(),
{
    if stats.len() == 0 {
        Seq::empty()
    } else if stats.len() == 1 {
        entry_str(idx, stats[0])
    } else {
        entry_str(idx, stats[0]) + "  / "@ + render_from(stats.drop_first(), idx + 1)
    }
}

/// The whole progress line for one tick.
pub open spec fn render_line(stats: Seq<Stats>) -> Seq<char> {
    render_from(stats, 0)
}

/// The counters of each pipeline, in order.
pub open spec fn stats_of(ps: Seq<Pipeline>) -> Seq<Stats> {
    ps.map_values(|p: Pipeline| p.stats)
}

/// The one-character numeral for a digit value.
fn digit_str(d: u64) -> (r: &'static str)
    requires
        d < 10,
    ensures
        r@ == seq![dec_digit(d as int)],
{
    let r: &'static str = match d {
        0 => "0",
        1 => "1",
        2 => "2",
        3 => "3",
        4 => "4",
        5 => "5",
        6 => "6",
        7 => "7",
        8 => "8",
        _ => "9",
    };
    proof {
        reveal_strlit("0");
        reveal_strlit("1");
        reveal_strlit("2");
        reveal_strlit("3");
        reveal_strlit("4");
        reveal_strlit("5");
        reveal_strlit("6");
        reveal_strlit("7");
        reveal_strlit("8");
        reveal_strlit("9");
        assert(r@ =~= seq![dec_digit(d as int)]);
    }
    r
}

/// The decimal numeral for `n`.
pub fn u64_to_string(n: u64) -> (s: String)
    ensures
        s@ == dec_str(n as int),
    decreases n,
{
    if n < 10 {
        String::from_str(digit_str(n))
    } else {
        let mut s = u64_to_string(n / 10);
        s.append(digit_str(n % 10));
        proof {
            assert(s@ =~= dec_str(n as int / 10).push(dec_digit(n as int % 10)));
        }
        s
    }
}

/// Right-align a numeral to six columns.
fn pad_left6(s: String) -> (r: String)
    ensures
        r@ == pad6(s@),
{
    let l = s.as_str().unicode_len();
    if l >= 6 {
        return s;
    }
    let mut p = String::new();
    let mut k: usize = 0;
    while k < 6 - l
        invariant
            l == s@.len(),
            l < 6,
            k <= 6 - l,
            p@ == spaces(k as int),
        decreases 6 - l - k,
    {
        p.append(" ");
        proof {
            reveal_strlit(" ");
            assert(" "@ =~= seq![' ']);
            assert(p@ =~= spaces(k as int + 1));
        }
        k = k + 1;
    }
    p.append(s.as_str());
    proof {
        assert(p@ =~= pad6(s@));
    }
    p
}

/// Render one pipeline's cell.
fn entry(idx: u64, st: Stats) -> (r: String)
    ensures
        r@ == entry_str(idx as int, st),
{
    let mut r = u64_to_string(idx);
    r.append(" [");
    let ing = pad_left6(u64_to_string(st.ingested));
    r.append(ing.as_str());
    r.append(" | ");
    let del = pad_left6(u64_to_string(st.delivered));
    r.append(del.as_str());
    r.append("]");
    proof {
        assert(r@ =~= entry_str(idx as int, st));
    }
    r
}

/// Snapshot every pipeline's counters, in resolver order, reading only.
pub fn snapshot(pipelines: &Vec<Pipeline>) -> (v: Vec<Stats>)
    ensures
        v@ == stats_of(pipelines@),
{
    let mut v: Vec<Stats> = Vec::new();
    let n = pipelines.len();
    for i in 0..n
        invariant
            n == pipelines@.len(),
            v@ == stats_of(pipelines@.take(i as int)),
    {
        v.push(pipelines[i].stats());
        proof {
            assert(v@ =~= stats_of(pipelines@.take(i + 1)));
        }
    }
    proof {
        assert(pipelines@.take(n as int) =~= pipelines@);
    }
    v
}

/// Render the progress line for a snapshot.
pub fn render(stats: &Vec<Stats>) -> (r: String)
    ensures
        r@ == render_line(stats@),
{
    let mut r = String::new();
    let n = stats.len();
    proof {
        assert(stats@.skip(0) =~= stats@);
        assert(r@ + render_from(stats@.skip(0), 0) =~= render_line(stats@));
    }
    for i in 0..n
        invariant
            n == stats@.len(),
            render_line(stats@) == r@ + render_from(stats@.skip(i as int), i as int),
    {
        proof {
            assert(stats@.skip(i as int)[0] == stats@[i as int]);
            assert(stats@.skip(i as int).drop_first() =~= stats@.skip(i + 1));
        }
        let e = entry(i as u64, stats[i]);
        r.append(e.as_str());
        if i + 1 < n {
            r.append("  / ");
        }
        proof {
            if i + 1 == n {
                assert(stats@.skip(i + 1) =~= Seq::<Stats>::empty());
                assert(render_from(stats@.skip(i + 1), i + 1) =~= Seq::<char>::empty());
            }
            assert(render_line(stats@) =~= r@ + render_from(stats@.skip(i + 1), i + 1));
        }
    }
    proof {
        assert(stats@.skip(n as int) =~= Seq::<Stats>::empty());
        assert(render_line(stats@) =~= r@);
    }
    r
}

/// One tick of the reporter: snapshot, then render.
pub fn report_line(pipelines: &Vec<Pipeline>) -> (r: String)
    ensures
        r@ == render_line(stats_of(pipelines@)),
{
    let stats = snapshot(pipelines);
    render(&stats)
}

} // verus!
