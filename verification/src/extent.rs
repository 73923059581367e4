use vstd::prelude::*;

use crate::font::saturate64;
use crate::resolver::FontResolver;
use crate::segment::Run;

verus! {

/// Pixel extent of one run: the total advance width of the run's substring in
/// the font the run resolved to, and that font's fixed line height.
/// Delegates to the resolved font; a caller lays runs out left to right by
/// summing the widths.
pub fn run_extent(fs: &FontResolver, text: &str, run: &Run) -> (r: (u64, u32))
    requires
        run.font < fs@.fonts.len(),
        run.start <= run.end <= text@.len(),
    ensures
        r.0 as int == saturate64(
            fs@.fonts[run.font as int].width(text@.subrange(run.start as int, run.end as int)),
        ),
        r.1 as int == fs@.fonts[run.font as int].height(),
{
    let f = fs.font(run.font);
    let sub = run.slice(text);
    f.extent(sub)
}

/// The sum of the widths in `ws`.
pub open spec fn sum_widths(ws: Seq<u64>) -> int
    decreases ws.len(),
{
    if ws.len() == 0 {
        0
    } else {
        sum_widths(ws.drop_last()) + ws.last()
    }
}

proof fn lemma_sum_nonneg(ws: Seq<u64>)
    ensures
        0 <= sum_widths(ws),
    decreases ws.len(),
{
    if ws.len() > 0 {
        lemma_sum_nonneg(ws.drop_last());
    }
}

proof fn lemma_sum_take_succ(ws: Seq<u64>, i: int)
    requires
        0 <= i < ws.len(),
    ensures
        sum_widths(ws.take(i + 1)) == sum_widths(ws.take(i)) + ws[i],
{
    assert(ws.take(i + 1).drop_last() =~= ws.take(i));
    assert(ws.take(i + 1).last() == ws[i]);
}

proof fn lemma_sum_take_le(ws: Seq<u64>, i: int)
    requires
        0 <= i <= ws.len(),
    ensures
        sum_widths(ws.take(i)) <= sum_widths(ws),
    decreases ws.len() - i,
{
    if i == ws.len() {
        assert(ws.take(i) =~= ws);
    } else {
        lemma_sum_take_succ(ws, i);
        lemma_sum_take_le(ws, i + 1);
    }
}

/// The total width of runs laid out contiguously on one line: the sum of the
/// per-run widths, clamped to `u64::MAX` in the degenerate case that the true
/// sum exceeds it.
pub fn total_width(ws: &Vec<u64>) -> (r: u64)
    ensures
        r as int == saturate64(sum_widths(ws@)),
{
    let n = ws.len();
    let mut acc: u64 = 0;
    let mut i: usize = 0;
    while i < n
        invariant
            n == ws@.len(),
            i <= n,
            acc as int == saturate64(sum_widths(ws@.take(i as int))),
        decreases n - i,
    {
        let w = ws[i];
        proof {
            lemma_sum_take_succ(ws@, i as int);
            lemma_sum_nonneg(ws@.take(i as int));
        }
        acc = if acc > u64::MAX - w {
            u64::MAX
        } else {
            acc + w
        };
        i += 1;
    }
    proof {
        assert(ws@.take(n as int) =~= ws@);
    }
    acc
}

/// Where each run begins on the line: `x0` for the first, and each later run
/// immediately after the one before it.  Entry `i` is `x0` plus the widths of
/// the runs before `i`.
pub fn run_origins(x0: i64, ws: &Vec<u64>) -> (r: Vec<i64>)
    requires
        x0 + sum_widths(ws@) <= i64::MAX,
    ensures
        r@.len() == ws@.len(),
        forall|i: int| 0 <= i < ws@.len() ==> r@[i] == x0 + sum_widths(ws@.take(i)),
{
    let n = ws.len();
    let mut r: Vec<i64> = Vec::new();
    let mut acc: i64 = x0;
    let mut i: usize = 0;
    while i < n
        invariant
            n == ws@.len(),
            i <= n,
            x0 + sum_widths(ws@) <= i64::MAX,
            acc as int == x0 + sum_widths(ws@.take(i as int)),
            r@.len() == i,
            forall|k: int| 0 <= k < i ==> r@[k] == x0 + sum_widths(ws@.take(k)),
        decreases n - i,
    {
        r.push(acc);
        let w = ws[i];
        proof {
            lemma_sum_take_succ(ws@, i as int);
            lemma_sum_take_le(ws@, i as int + 1);
            lemma_sum_nonneg(ws@.take(i as int));
        }
        let next: i128 = acc as i128 + w as i128;
        acc = next as i64;
        i += 1;
    }
    r
}

/// The vertical offset that centers a run of height `run_h` in a line box of
/// height `line_h`, truncated toward zero exactly as the drawing layer's
/// signed pixel arithmetic truncates.
pub open spec fn centered_offset(line_h: int, run_h: int) -> int {
    if line_h >= run_h {
        (line_h - run_h) / 2
    } else {
        -((run_h - line_h) / 2)
    }
}

/// The baseline position for drawing a run: the top of the line box, plus the
/// offset that centers the run's line box vertically, plus the run's font
/// ascent down to its baseline.
pub fn baseline_y(top: i32, line_h: u32, run_h: u32, ascent: u16) -> (y: i64)
    ensures
        y == top + centered_offset(line_h as int, run_h as int) + ascent,
{
    let off: i64 = if line_h >= run_h {
        ((line_h - run_h) / 2) as i64
    } else {
        -(((run_h - line_h) / 2) as i64)
    };
    top as i64 + off + ascent as i64
}

} // verus!
