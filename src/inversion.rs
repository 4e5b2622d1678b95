use vstd::prelude::*;
use crate::protocol::SCALE;
use crate::cleaner::clamp_unit;

verus! {

/// Physical values handled by the inversions stay strictly below this magnitude.
pub const PHYS_BOUND: i64 = 4_000_000_000_000_000_000;

/// A calibration point: a physical value and the normalized value showing it.
#[derive(Clone, Copy, Debug, PartialEq, Eq, Structural)]
pub struct CalPoint {
    pub physical: i64,
    pub norm: i64,
}

pub open spec fn points_bounded(p: Seq<CalPoint>) -> bool {
    forall|k: int| 0 <= k < p.len() ==> -PHYS_BOUND < #[trigger] p[k].physical < PHYS_BOUND
}

/// First point among `p[..n]` with the least physical value, or -1.
pub open spec fn min_pos(p: Seq<CalPoint>, n: int) -> int
    decreases n,
{
    if n <= 0 {
        -1
    } else {
        let b = min_pos(p, n - 1);
        if b < 0 || p[n - 1].physical < p[b].physical { n - 1 } else { b }
    }
}

/// First point among `p[..n]` with the greatest physical value, or -1.
pub open spec fn max_pos(p: Seq<CalPoint>, n: int) -> int
    decreases n,
{
    if n <= 0 {
        -1
    } else {
        let b = max_pos(p, n - 1);
        if b < 0 || p[n - 1].physical > p[b].physical { n - 1 } else { b }
    }
}

/// First point among `p[..n]` with the greatest physical value below `t`, or -1.
pub open spec fn lo_pos(p: Seq<CalPoint>, t: int, n: int) -> int
    decreases n,
{
    if n <= 0 {
        -1
    } else {
        let b = lo_pos(p, t, n - 1);
        if p[n - 1].physical < t && (b < 0 || p[n - 1].physical > p[b].physical) { n - 1 } else { b }
    }
}

/// First point among `p[..n]` with the least physical value at or above `t`, or -1.
pub open spec fn hi_pos(p: Seq<CalPoint>, t: int, n: int) -> int
    decreases n,
{
    if n <= 0 {
        -1
    } else {
        let b = hi_pos(p, t, n - 1);
        if p[n - 1].physical >= t && (b < 0 || p[n - 1].physical < p[b].physical) { n - 1 } else { b }
    }
}

/// The value at `t` on the line through `(x0, y0)` and `(x1, y1)`, `x0 < x1`,
/// rounded towards `y0`.
pub open spec fn interp(x0: int, y0: int, x1: int, y1: int, t: int) -> int {
    if y1 >= y0 {
        y0 + ((t - x0) * (y1 - y0)) / (x1 - x0)
    } else {
        y0 - ((t - x0) * (y0 - y1)) / (x1 - x0)
    }
}

/// Piecewise-linear inversion: below the least physical value, the norm of
/// that point; above the greatest, the norm of that point; in between,
/// interpolation between the nearest points on either side. Clamped to
/// `0..=SCALE`.
pub open spec fn invert_piecewise(p: Seq<CalPoint>, t: int) -> Option<int> {
    if p.len() == 0 {
        None
    } else {
        let mn = min_pos(p, p.len() as int);
        let mx = max_pos(p, p.len() as int);
        if t <= p[mn].physical {
            Some(clamp_unit(p[mn].norm) as int)
        } else if t >= p[mx].physical {
            Some(clamp_unit(p[mx].norm) as int)
        } else {
            let lo = lo_pos(p, t, p.len() as int);
            let hi = hi_pos(p, t, p.len() as int);
            Some(clamp_int(interp(p[lo].physical as int, p[lo].norm as int, p[hi].physical as int, p[hi].norm as int, t)))
        }
    }
}

pub open spec fn clamp_int(v: int) -> int {
    if v < 0 { 0 } else if v > SCALE { SCALE as int } else { v }
}

proof fn lemma_min_max(p: Seq<CalPoint>, n: int)
    requires
        0 < n <= p.len(),
    ensures
        0 <= min_pos(p, n) < n,
        0 <= max_pos(p, n) < n,
        forall|k: int| 0 <= k < n ==> p[min_pos(p, n)].physical <= #[trigger] p[k].physical,
        forall|k: int| 0 <= k < n ==> p[max_pos(p, n)].physical >= #[trigger] p[k].physical,
    decreases n,
{
    if n > 1 {
        lemma_min_max(p, n - 1);
    } else {
        assert(min_pos(p, 0) == -1 && max_pos(p, 0) == -1);
    }
}

proof fn lemma_lo_hi(p: Seq<CalPoint>, t: int, n: int)
    requires
        0 <= n <= p.len(),
    ensures
        -1 <= lo_pos(p, t, n) < n,
        -1 <= hi_pos(p, t, n) < n,
        lo_pos(p, t, n) >= 0 ==> p[lo_pos(p, t, n)].physical < t,
        hi_pos(p, t, n) >= 0 ==> p[hi_pos(p, t, n)].physical >= t,
        forall|k: int| 0 <= k < n && #[trigger] p[k].physical < t ==> lo_pos(p, t, n) >= 0,
        forall|k: int| 0 <= k < n && #[trigger] p[k].physical >= t ==> hi_pos(p, t, n) >= 0,
    decreases n,
{
    if n > 0 {
        lemma_lo_hi(p, t, n - 1);
    }
}

fn clamp_exec(v: i128) -> (r: i64)
    ensures
        r == clamp_int(v as int),
{
    if v < 0 { 0 } else if v > SCALE as i128 { SCALE } else { v as i64 }
}

/// Inverts the calibration `p` at the physical value `t` (see `invert_piecewise`).
pub fn invert_piecewise_exec(p: &Vec<CalPoint>, t: i64) -> (r: Option<i64>)
    requires
        points_bounded(p@),
    ensures
        r matches Some(v) ==> invert_piecewise(p@, t as int) == Some(v as int),
        r is None ==> invert_piecewise(p@, t as int) is None,
{
    let n = p.len();
    if n == 0 {
        return None;
    }
    let mut mn: usize = 0;
    let mut mx: usize = 0;
    let mut lo: Option<usize> = None;
    let mut hi: Option<usize> = None;
    let mut k: usize = 0;
    while k < n
        invariant
            n == p@.len(),
            k <= n,
            k > 0 ==> mn == min_pos(p@, k as int) && mx == max_pos(p@, k as int),
            k == 0 ==> mn == 0 && mx == 0,
            lo matches Some(l) ==> l == lo_pos(p@, t as int, k as int),
            lo is None ==> lo_pos(p@, t as int, k as int) == -1,
            hi matches Some(h) ==> h == hi_pos(p@, t as int, k as int),
            hi is None ==> hi_pos(p@, t as int, k as int) == -1,
        decreases n - k,
    {
        proof {
            lemma_lo_hi(p@, t as int, k as int);
            if k > 0 { lemma_min_max(p@, k as int); }
            assert(min_pos(p@, 0) == -1 && max_pos(p@, 0) == -1);
        }
        let x = p[k].physical;
        if k > 0 {
            if x < p[mn].physical { mn = k; }
            if x > p[mx].physical { mx = k; }
        }
        if x < t {
            match lo {
                Some(l) => { if x > p[l].physical { lo = Some(k); } }
                None => { lo = Some(k); }
            }
        }
        if x >= t {
            match hi {
                Some(h) => { if x < p[h].physical { hi = Some(k); } }
                None => { hi = Some(k); }
            }
        }
        k = k + 1;
    }
    proof {
        lemma_min_max(p@, n as int);
        lemma_lo_hi(p@, t as int, n as int);
    }
    if t <= p[mn].physical {
        return Some(clamp_exec(p[mn].norm as i128));
    }
    if t >= p[mx].physical {
        return Some(clamp_exec(p[mx].norm as i128));
    }
    proof {
        assert(p@[mn as int].physical < t);
        assert(p@[mx as int].physical >= t);
    }
    let l = match lo { Some(l) => l, None => { return None; } };
    let h = match hi { Some(h) => h, None => { return None; } };
    let x0 = p[l].physical as i128;
    let y0 = p[l].norm as i128;
    let x1 = p[h].physical as i128;
    let y1 = p[h].norm as i128;
    let tt = t as i128;
    proof {
        assert(-PHYS_BOUND < p@[l as int].physical < PHYS_BOUND);
        assert(-PHYS_BOUND < p@[h as int].physical < PHYS_BOUND);
        assert(0 < tt - x0 < 8_000_000_000_000_000_000);
        assert(x0 < tt <= x1);
    }
    let v: i128 = if y1 >= y0 {
        let dy = y1 - y0;
        proof {
            assert((tt - x0) * dy <= 8_000_000_000_000_000_000 * 18_446_744_073_709_551_615) by (nonlinear_arith)
                requires 0 < tt - x0 < 8_000_000_000_000_000_000, 0 <= dy <= 18_446_744_073_709_551_615;
            assert((tt - x0) * dy >= 0) by (nonlinear_arith)
                requires 0 < tt - x0, 0 <= dy;
            assert(((tt - x0) * dy) / (x1 - x0) <= (tt - x0) * dy) by (nonlinear_arith)
                requires (tt - x0) * dy >= 0, x1 - x0 >= 1;
            assert(((tt - x0) * dy) / (x1 - x0) >= 0) by (nonlinear_arith)
                requires (tt - x0) * dy >= 0, x1 - x0 >= 1;
        }
        y0 + ((tt - x0) * dy) / (x1 - x0)
    } else {
        let dy = y0 - y1;
        proof {
            assert((tt - x0) * dy <= 8_000_000_000_000_000_000 * 18_446_744_073_709_551_615) by (nonlinear_arith)
                requires 0 < tt - x0 < 8_000_000_000_000_000_000, 0 <= dy <= 18_446_744_073_709_551_615;
            assert((tt - x0) * dy >= 0) by (nonlinear_arith)
                requires 0 < tt - x0, 0 <= dy;
            assert(((tt - x0) * dy) / (x1 - x0) <= (tt - x0) * dy) by (nonlinear_arith)
                requires (tt - x0) * dy >= 0, x1 - x0 >= 1;
            assert(((tt - x0) * dy) / (x1 - x0) >= 0) by (nonlinear_arith)
                requires (tt - x0) * dy >= 0, x1 - x0 >= 1;
        }
        y0 - ((tt - x0) * dy) / (x1 - x0)
    };
    Some(clamp_exec(v))
}

/// Linear inversion over a physical range `min..max` (either direction):
/// `(t - min) / (max - min)`, clamped to `0..=SCALE`. `None` when the range is
/// empty or lies within `-0.5..=1.5`, i.e. looks normalized already.
pub open spec fn invert_range(min: int, max: int, t: int) -> Option<int> {
    if max == min {
        None
    } else if max <= 1_500_000 && min >= -500_000 {
        None
    } else if max > min {
        Some(clamp_int(((t - min) * SCALE) / (max - min)))
    } else {
        Some(clamp_int(((min - t) * SCALE) / (min - max)))
    }
}

pub fn invert_range_exec(min: i64, max: i64, t: i64) -> (r: Option<i64>)
    requires
        -PHYS_BOUND < min < PHYS_BOUND,
        -PHYS_BOUND < max < PHYS_BOUND,
    ensures
        r matches Some(v) ==> invert_range(min as int, max as int, t as int) == Some(v as int),
        r is None ==> invert_range(min as int, max as int, t as int) is None,
{
    if max == min {
        return None;
    }
    if max <= 1_500_000 && min >= -500_000 {
        return None;
    }
    let (num, den): (i128, i128) = if max > min {
        ((t as i128 - min as i128) * (SCALE as i128), max as i128 - min as i128)
    } else {
        ((min as i128 - t as i128) * (SCALE as i128), min as i128 - max as i128)
    };
    if num < 0 {
        proof {
            assert(num / den <= 0) by (nonlinear_arith)
                requires num < 0, den >= 1;
        }
        return Some(0);
    }
    proof {
        assert(num / den <= num) by (nonlinear_arith)
            requires num >= 0, den >= 1;
        assert(num / den >= 0) by (nonlinear_arith)
            requires num >= 0, den >= 1;
    }
    Some(clamp_exec(num / den))
}

/// No two points share a physical value.
pub open spec fn distinct_physical(p: Seq<CalPoint>) -> bool {
    forall|j: int, k: int| 0 <= j < p.len() && 0 <= k < p.len() && j != k ==> p[j].physical != p[k].physical
}

/// Inverting a calibration at one of its own points gives back that point's
/// normalized value (clamped): a sampled display maps back onto its sample.
pub proof fn lemma_piecewise_hits_sample(p: Seq<CalPoint>, k: int)
    requires
        distinct_physical(p),
        0 <= k < p.len(),
    ensures
        invert_piecewise(p, p[k].physical as int) == Some(clamp_unit(p[k].norm) as int),
{
    let n = p.len() as int;
    let t = p[k].physical as int;
    lemma_min_max(p, n);
    lemma_lo_hi(p, t, n);
    let mn = min_pos(p, n);
    let mx = max_pos(p, n);
    if t <= p[mn].physical {
        assert(p[mn].physical <= p[k].physical);
        assert(mn == k);
    } else if t >= p[mx].physical {
        assert(p[mx].physical >= p[k].physical);
        assert(mx == k);
    } else {
        let lo = lo_pos(p, t, n);
        let hi = hi_pos(p, t, n);
        assert(p[mn].physical < t);
        assert(lo >= 0 && hi >= 0);
        lemma_hi_least(p, t, n, k);
        assert(hi == k);
        let x0 = p[lo].physical as int;
        let y0 = p[lo].norm as int;
        let y1 = p[k].norm as int;
        let d = t - x0;
        assert(d > 0);
        if y1 >= y0 {
            assert((d * (y1 - y0)) / d == y1 - y0) by (nonlinear_arith)
                requires d > 0;
        } else {
            assert((d * (y0 - y1)) / d == y0 - y1) by (nonlinear_arith)
                requires d > 0;
        }
        assert(interp(x0, y0, t, y1, t) == y1);
    }
}

proof fn lemma_hi_least(p: Seq<CalPoint>, t: int, n: int, k: int)
    requires
        0 <= k < n <= p.len(),
        p[k].physical >= t,
    ensures
        hi_pos(p, t, n) >= 0,
        p[hi_pos(p, t, n)].physical <= p[k].physical,
    decreases n,
{
    lemma_lo_hi(p, t, n);
    if k < n - 1 {
        lemma_hi_least(p, t, n - 1, k);
    }
}

/// `db / span + 0.5`, clamped to the unit range (`db` in millionths of a dB).
pub open spec fn db_to_unit(db: int, span: int) -> int {
    clamp_int((if db >= 0 { db / span } else { -((-db) / span) }) + SCALE / 2)
}

/// Graphic-EQ band gain in dB (-12..+12 around the center) to a normalized value.
pub fn eq_db_to_unit(db: i64) -> (r: i64)
    ensures
        r == db_to_unit(db as int, 24),
{
    let d = db as i128;
    let q: i128 = if d >= 0 { d / 24 } else { -((-d) / 24) };
    clamp_exec(q + (SCALE / 2) as i128)
}

/// Input/output gain in dB (-24..+24 around the center) to a normalized value.
pub fn gain_db_to_unit(db: i64) -> (r: i64)
    ensures
        r == db_to_unit(db as int, 48),
{
    let d = db as i128;
    let q: i128 = if d >= 0 { d / 48 } else { -((-d) / 48) };
    clamp_exec(q + (SCALE / 2) as i128)
}

/// A switch position as a normalized value.
pub fn on_off(on: bool) -> (r: i64)
    ensures
        r == (if on { SCALE } else { 0 }),
{
    if on { SCALE } else { 0 }
}

} // verus!
