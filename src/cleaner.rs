use vstd::prelude::*;
use crate::protocol::{ParamChange, MergeMode, SCALE, MAX_PARAM_INDEX};

verus! {

/// A parameter index that is outside `0..=MAX_PARAM_INDEX`.
#[derive(Clone, Copy, Debug, PartialEq, Eq, Structural)]
pub struct SanitizeError {
    pub index: i32,
}

pub open spec fn index_in_range(i: i32) -> bool {
    0 <= i <= MAX_PARAM_INDEX
}

pub open spec fn clamp_unit(v: i64) -> i64 {
    if v < 0 { 0 } else if v > SCALE { SCALE } else { v }
}

pub open spec fn clamp_change(p: ParamChange) -> ParamChange {
    ParamChange { index: p.index, value: clamp_unit(p.value) }
}

/// Some entry of `s` writes parameter `idx`.
pub open spec fn has_index(s: Seq<ParamChange>, idx: i32) -> bool {
    exists|j: int| 0 <= j < s.len() && #[trigger] s[j].index == idx
}

/// Keeps the last write of each index, in the order of those last writes,
/// with every value clamped to the unit range.
pub open spec fn dedup_last(s: Seq<ParamChange>) -> Seq<ParamChange>
    decreases s.len(),
{
    if s.len() == 0 {
        Seq::empty()
    } else if has_index(s.skip(1), s[0].index) {
        dedup_last(s.skip(1))
    } else {
        seq![clamp_change(s[0])].add(dedup_last(s.skip(1)))
    }
}

/// Position of the first entry whose index is out of range, if any.
pub open spec fn first_bad_index(s: Seq<ParamChange>) -> int
    decreases s.len(),
{
    if s.len() == 0 {
        -1
    } else if !index_in_range(s[0].index) {
        0
    } else {
        let r = first_bad_index(s.skip(1));
        if r < 0 { -1 } else { r + 1 }
    }
}

/// What sanitizing `s` yields.
pub open spec fn sanitized(s: Seq<ParamChange>) -> Result<Seq<ParamChange>, SanitizeError> {
    let b = first_bad_index(s);
    if b >= 0 {
        Err(SanitizeError { index: s[b].index })
    } else {
        Ok(dedup_last(s))
    }
}

/// Every entry has an in-range index and a value in the unit range, and no
/// index occurs twice.
pub open spec fn well_formed_changes(s: Seq<ParamChange>) -> bool {
    &&& forall|j: int| 0 <= j < s.len() ==> index_in_range(#[trigger] s[j].index)
    &&& forall|j: int| 0 <= j < s.len() ==> 0 <= #[trigger] s[j].value <= SCALE
    &&& forall|j: int, k: int| 0 <= j < k < s.len() ==> s[j].index != s[k].index
}

proof fn lemma_first_bad_index(s: Seq<ParamChange>)
    ensures
        first_bad_index(s) < s.len(),
        first_bad_index(s) >= 0 ==> !index_in_range(s[first_bad_index(s)].index),
        first_bad_index(s) >= 0 ==> forall|j: int| 0 <= j < first_bad_index(s) ==> index_in_range(#[trigger] s[j].index),
        first_bad_index(s) < 0 <==> forall|j: int| 0 <= j < s.len() ==> index_in_range(#[trigger] s[j].index),
    decreases s.len(),
{
    if s.len() > 0 {
        lemma_first_bad_index(s.skip(1));
        assert forall|j: int| 1 <= j < s.len() implies s[j] == #[trigger] s.skip(1)[j - 1] by {}
        if index_in_range(s[0].index) {
            let r = first_bad_index(s.skip(1));
            if r < 0 {
                assert forall|j: int| 0 <= j < s.len() implies index_in_range(#[trigger] s[j].index) by {
                    if j > 0 { assert(s[j] == s.skip(1)[j - 1]); }
                }
            } else {
                assert forall|j: int| 0 <= j < r + 1 implies index_in_range(#[trigger] s[j].index) by {
                    if j > 0 { assert(s[j] == s.skip(1)[j - 1]); }
                }
                assert(s[r + 1] == s.skip(1)[r]);
                assert(!index_in_range(s[r + 1].index));
            }
        }
    }
}

proof fn lemma_dedup_indices(s: Seq<ParamChange>, idx: i32)
    ensures
        has_index(dedup_last(s), idx) <==> has_index(s, idx),
    decreases s.len(),
{
    if s.len() > 0 {
        let t = s.skip(1);
        lemma_dedup_indices(t, idx);
        let d = dedup_last(s);
        if has_index(s, idx) {
            let j = choose|j: int| 0 <= j < s.len() && #[trigger] s[j].index == idx;
            if j > 0 {
                assert(t[j - 1].index == idx);
                if !has_index(t, s[0].index) {
                    let dt = dedup_last(t);
                    let k = choose|k: int| 0 <= k < dt.len() && #[trigger] dt[k].index == idx;
                    assert(d[k + 1] == dt[k]);
                }
            } else if has_index(t, s[0].index) {
            } else {
                assert(d[0].index == idx);
            }
        }
        if has_index(d, idx) {
            if has_index(t, s[0].index) {
            } else {
                let k = choose|k: int| 0 <= k < d.len() && #[trigger] d[k].index == idx;
                if k == 0 {
                    assert(s[0].index == idx);
                } else {
                    assert(dedup_last(t)[k - 1].index == idx);
                    let jt = choose|j: int| 0 <= j < t.len() && #[trigger] t[j].index == idx;
                    assert(s[jt + 1].index == idx);
                }
            }
        }
    }
}

proof fn lemma_dedup_well_formed(s: Seq<ParamChange>)
    requires
        forall|j: int| 0 <= j < s.len() ==> index_in_range(#[trigger] s[j].index),
    ensures
        well_formed_changes(dedup_last(s)),
    decreases s.len(),
{
    if s.len() > 0 {
        let t = s.skip(1);
        assert forall|j: int| 0 <= j < t.len() implies index_in_range(#[trigger] t[j].index) by {
            assert(t[j] == s[j + 1]);
        }
        lemma_dedup_well_formed(t);
        let d = dedup_last(s);
        let dt = dedup_last(t);
        if !has_index(t, s[0].index) {
            assert(index_in_range(s[0].index));
            assert forall|j: int| 0 <= j < d.len() implies index_in_range(#[trigger] d[j].index) by {
                if j > 0 { assert(d[j] == dt[j - 1]); }
            }
            assert forall|j: int| 0 <= j < d.len() implies 0 <= #[trigger] d[j].value <= SCALE by {
                if j > 0 { assert(d[j] == dt[j - 1]); }
            }
            assert forall|j: int, k: int| 0 <= j < k < d.len() implies d[j].index != d[k].index by {
                assert(d[k] == dt[k - 1]);
                if j == 0 {
                    lemma_dedup_indices(t, s[0].index);
                    if d[k].index == s[0].index {
                        assert(has_index(dt, s[0].index));
                    }
                } else {
                    assert(d[j] == dt[j - 1]);
                }
            }
        }
    }
}

proof fn lemma_dedup_identity(s: Seq<ParamChange>)
    requires
        well_formed_changes(s),
    ensures
        dedup_last(s) == s,
    decreases s.len(),
{
    if s.len() > 0 {
        let t = s.skip(1);
        assert forall|j: int| 0 <= j < t.len() implies index_in_range(#[trigger] t[j].index) by {
            assert(t[j] == s[j + 1]);
        }
        assert forall|j: int| 0 <= j < t.len() implies 0 <= #[trigger] t[j].value <= SCALE by {
            assert(t[j] == s[j + 1]);
        }
        assert forall|j: int, k: int| 0 <= j < k < t.len() implies t[j].index != t[k].index by {
            assert(t[j] == s[j + 1]);
            assert(t[k] == s[k + 1]);
        }
        lemma_dedup_identity(t);
        if has_index(t, s[0].index) {
            let j = choose|j: int| 0 <= j < t.len() && #[trigger] t[j].index == s[0].index;
            assert(s[j + 1] == t[j]);
            assert(false);
        }
        assert(s[0].value == clamp_unit(s[0].value));
        assert(s =~= seq![clamp_change(s[0])].add(t));
    }
}

/// Sanitizing is idempotent: a sanitized write set sanitizes to itself.
pub proof fn lemma_sanitize_idempotent(s: Seq<ParamChange>, out: Seq<ParamChange>)
    requires
        sanitized(s) == Ok::<Seq<ParamChange>, SanitizeError>(out),
    ensures
        sanitized(out) == Ok::<Seq<ParamChange>, SanitizeError>(out),
{
    lemma_first_bad_index(s);
    lemma_dedup_well_formed(s);
    lemma_dedup_identity(out);
    lemma_first_bad_index(out);
}

/// Every successful sanitize yields in-range indices, unit-range values and
/// no repeated index.
pub proof fn lemma_sanitize_well_formed(s: Seq<ParamChange>, out: Seq<ParamChange>)
    requires
        sanitized(s) == Ok::<Seq<ParamChange>, SanitizeError>(out),
    ensures
        well_formed_changes(out),
{
    lemma_first_bad_index(s);
    lemma_dedup_well_formed(s);
}

/// Rejects out-of-range indices (naming the first one), then keeps only the
/// last write of each index, in the order of those last writes, with values
/// clamped to `0..=SCALE`.
pub fn sanitize_params(params: Vec<ParamChange>) -> (r: Result<Vec<ParamChange>, SanitizeError>)
    ensures
        r matches Ok(v) ==> sanitized(params@) == Ok::<Seq<ParamChange>, SanitizeError>(v@),
        r matches Err(e) ==> sanitized(params@) == Err::<Seq<ParamChange>, SanitizeError>(e),
        r is Ok ==> well_formed_changes(r->Ok_0@),
{
    proof { lemma_first_bad_index(params@); }
    let n = params.len();
    let mut i: usize = 0;
    while i < n
        invariant
            n == params@.len(),
            i <= n,
            forall|j: int| 0 <= j < i ==> index_in_range(#[trigger] params@[j].index),
        decreases n - i,
    {
        let idx = params[i].index;
        if idx < 0 || idx > MAX_PARAM_INDEX {
            proof {
                lemma_first_bad_index(params@);
                let b = first_bad_index(params@);
                assert(!index_in_range(params@[i as int].index));
                if b < 0 {
                    assert(index_in_range(params@[i as int].index));
                }
                assert(b == i as int) by {
                    if b < i { assert(index_in_range(params@[b].index)); }
                    if b > i { assert(index_in_range(params@[i as int].index)); }
                }
            }
            return Err(SanitizeError { index: idx });
        }
        i = i + 1;
    }
    let mut out: Vec<ParamChange> = Vec::new();
    let mut k: usize = n;
    while k > 0
        invariant
            n == params@.len(),
            k <= n,
            out@ == dedup_last(params@.skip(k as int)),
        decreases k,
    {
        let p = params[k - 1];
        proof {
            assert(params@.skip(k as int - 1).skip(1) =~= params@.skip(k as int));
            assert(params@.skip(k as int - 1)[0] == p);
        }
        let mut found = false;
        let mut j: usize = 0;
        while j < out.len()
            invariant
                j <= out@.len(),
                found <==> exists|m: int| 0 <= m < j && #[trigger] out@[m].index == p.index,
            decreases out@.len() - j,
        {
            if out[j].index == p.index {
                found = true;
            }
            j = j + 1;
        }
        proof {
            lemma_dedup_indices(params@.skip(k as int), p.index);
            if found {
                let m = choose|m: int| 0 <= m < j && #[trigger] out@[m].index == p.index;
                assert(has_index(out@, p.index));
            } else {
                if has_index(out@, p.index) {
                    let m = choose|m: int| 0 <= m < out@.len() && #[trigger] out@[m].index == p.index;
                    assert(false);
                }
            }
        }
        if !found {
            let v = if p.value < 0 { 0 } else if p.value > SCALE { SCALE } else { p.value };
            out.insert(0, ParamChange { index: p.index, value: v });
            proof {
                assert(out@ =~= seq![clamp_change(p)].add(dedup_last(params@.skip(k as int))));
            }
        }
        k = k - 1;
    }
    proof {
        assert(params@.skip(0) =~= params@);
        lemma_dedup_well_formed(params@);
    }
    Ok(out)
}

/// Number of statically declared effect modules.
pub const MODULE_COUNT: usize = 8;

/// The bypass toggles of module `m`.
pub open spec fn module_bypass(m: int) -> Seq<i32> {
    if m == 0 { seq![3i32, 4] }
    else if m == 1 { seq![8i32] }
    else if m == 2 { seq![13i32] }
    else if m == 3 { seq![17i32] }
    else if m == 4 { seq![21i32] }
    else if m == 5 { seq![23i32] }
    else if m == 6 { seq![101i32] }
    else { seq![112i32] }
}

/// All indices that belong to module `m`, its bypass toggles included.
pub open spec fn module_params(m: int) -> Seq<i32> {
    if m == 0 { seq![3i32, 4, 6] }
    else if m == 1 { seq![8i32, 9, 10, 11] }
    else if m == 2 { seq![13i32, 14, 15, 16] }
    else if m == 3 { seq![17i32, 18, 19, 20] }
    else if m == 4 { seq![21i32, 22] }
    else if m == 5 { seq![23i32, 24, 25, 27] }
    else if m == 6 { seq![101i32, 105, 106, 108] }
    else { seq![112i32, 114, 115, 116, 117] }
}

/// Some entry of `s` edits a non-bypass parameter of module `m`.
pub open spec fn module_touched(s: Seq<ParamChange>, m: int) -> bool {
    exists|j: int| 0 <= j < s.len() && module_params(m).contains(#[trigger] s[j].index)
        && !module_bypass(m).contains(s[j].index)
}

/// Some entry of `s` has an index in `lo..=hi`.
pub open spec fn touches_range(s: Seq<ParamChange>, lo: i32, hi: i32) -> bool {
    exists|j: int| 0 <= j < s.len() && lo <= #[trigger] s[j].index <= hi
}

pub open spec fn on_if(c: bool, idx: i32) -> Seq<ParamChange> {
    if c { seq![ParamChange { index: idx, value: SCALE }] } else { Seq::empty() }
}

/// Section toggles that the edits in `s` call for, each switched on.
pub open spec fn section_candidates(s: Seq<ParamChange>) -> Seq<ParamChange> {
    on_if(touches_range(s, 53, 82), 52)
        + on_if(touches_range(s, 54, 62) || has_index(s, 53), 53)
        + on_if(touches_range(s, 64, 72) || has_index(s, 63), 63)
        + on_if(touches_range(s, 74, 82) || has_index(s, 73), 73)
        + on_if(touches_range(s, 84, 99), 83)
        + on_if(touches_range(s, 87, 92) || has_index(s, 86), 86)
        + on_if(touches_range(s, 94, 99) || has_index(s, 93), 93)
}

pub open spec fn toggle_writes(idx: Seq<i32>, v: i64) -> Seq<ParamChange> {
    idx.map_values(|i: i32| ParamChange { index: i, value: v })
}

/// From module `m` on: the bypass toggles of every touched module switched
/// on, those of every untouched module switched off.
pub open spec fn bypass_candidates(s: Seq<ParamChange>, m: int) -> Seq<ParamChange>
    decreases MODULE_COUNT - m,
{
    if m < 0 || m >= MODULE_COUNT {
        Seq::empty()
    } else {
        toggle_writes(module_bypass(m), if module_touched(s, m) { SCALE } else { 0 }) + bypass_candidates(s, m + 1)
    }
}

/// Appends each candidate whose index is not yet present, in order.
pub open spec fn add_missing(out: Seq<ParamChange>, cands: Seq<ParamChange>) -> Seq<ParamChange>
    decreases cands.len(),
{
    if cands.len() == 0 {
        out
    } else if has_index(out, cands[0].index) {
        add_missing(out, cands.skip(1))
    } else {
        add_missing(out.push(cands[0]), cands.skip(1))
    }
}

/// What the replace-active clean yields for `s`.
pub open spec fn replace_active(s: Seq<ParamChange>) -> Seq<ParamChange> {
    add_missing(s, section_candidates(s) + bypass_candidates(s, 0))
}

proof fn lemma_add_missing_extends(out: Seq<ParamChange>, cands: Seq<ParamChange>)
    ensures
        add_missing(out, cands).len() >= out.len(),
        add_missing(out, cands).take(out.len() as int) == out,
        forall|j: int| out.len() <= j < add_missing(out, cands).len()
            ==> !has_index(out, #[trigger] add_missing(out, cands)[j].index),
        forall|j: int, k: int| #![trigger add_missing(out, cands)[j], add_missing(out, cands)[k]]
            out.len() <= j < k < add_missing(out, cands).len()
            ==> add_missing(out, cands)[j].index != add_missing(out, cands)[k].index,
    decreases cands.len(),
{
    if cands.len() > 0 {
        let rest = cands.skip(1);
        if has_index(out, cands[0].index) {
            lemma_add_missing_extends(out, rest);
        } else {
            let o2 = out.push(cands[0]);
            lemma_add_missing_extends(o2, rest);
            let r = add_missing(out, cands);
            assert(r.take(out.len() as int) =~= r.take(o2.len() as int).take(out.len() as int));
            assert(r.take(out.len() as int) =~= out);
            assert forall|j: int| out.len() <= j < r.len() implies !has_index(out, #[trigger] r[j].index) by {
                if has_index(out, r[j].index) {
                    let k = choose|k: int| 0 <= k < out.len() && #[trigger] out[k].index == r[j].index;
                    assert(o2[k] == out[k]);
                    if j == out.len() {
                        assert(r.take(o2.len() as int)[j] == r[j]);
                        assert(r[j] == cands[0]);
                    } else {
                        assert(has_index(o2, r[j].index));
                    }
                }
            }
            assert forall|j: int, k: int| #![trigger r[j], r[k]] out.len() <= j < k < r.len()
                implies r[j].index != r[k].index by {
                if j == out.len() {
                    assert(r.take(o2.len() as int)[j] == r[j]);
                    assert(o2[j] == cands[0]);
                    assert(!has_index(o2, r[k].index));
                    if r[j].index == r[k].index {
                        assert(o2[j].index == r[k].index);
                    }
                }
            }
        }
    }
}

/// The replace-active clean never changes or drops an entry of its input: the
/// input is a prefix of the result, and each added entry writes an index the
/// input does not write, and no other added entry writes.
pub proof fn lemma_replace_active_only_adds(s: Seq<ParamChange>)
    ensures
        replace_active(s).len() >= s.len(),
        forall|j: int| 0 <= j < s.len() ==> #[trigger] replace_active(s)[j] == s[j],
        forall|j: int| s.len() <= j < replace_active(s).len()
            ==> !has_index(s, #[trigger] replace_active(s)[j].index),
        forall|j: int, k: int| #![trigger replace_active(s)[j], replace_active(s)[k]]
            s.len() <= j < k < replace_active(s).len()
            ==> replace_active(s)[j].index != replace_active(s)[k].index,
{
    let c = section_candidates(s) + bypass_candidates(s, 0);
    lemma_add_missing_extends(s, c);
    assert forall|j: int| 0 <= j < s.len() implies #[trigger] replace_active(s)[j] == s[j] by {
        assert(replace_active(s).take(s.len() as int)[j] == replace_active(s)[j]);
    }
}

fn module_bypass_vec(m: usize) -> (r: Vec<i32>)
    requires
        m < MODULE_COUNT,
    ensures
        r@ == module_bypass(m as int),
{
    let r = if m == 0 { vec![3i32, 4] }
    else if m == 1 { vec![8i32] }
    else if m == 2 { vec![13i32] }
    else if m == 3 { vec![17i32] }
    else if m == 4 { vec![21i32] }
    else if m == 5 { vec![23i32] }
    else if m == 6 { vec![101i32] }
    else { vec![112i32] };
    assert(r@ =~= module_bypass(m as int));
    r
}

fn module_params_vec(m: usize) -> (r: Vec<i32>)
    requires
        m < MODULE_COUNT,
    ensures
        r@ == module_params(m as int),
{
    let r = if m == 0 { vec![3i32, 4, 6] }
    else if m == 1 { vec![8i32, 9, 10, 11] }
    else if m == 2 { vec![13i32, 14, 15, 16] }
    else if m == 3 { vec![17i32, 18, 19, 20] }
    else if m == 4 { vec![21i32, 22] }
    else if m == 5 { vec![23i32, 24, 25, 27] }
    else if m == 6 { vec![101i32, 105, 106, 108] }
    else { vec![112i32, 114, 115, 116, 117] };
    assert(r@ =~= module_params(m as int));
    r
}

fn contains_i32(v: &Vec<i32>, x: i32) -> (r: bool)
    ensures
        r == v@.contains(x),
{
    let mut i: usize = 0;
    while i < v.len()
        invariant
            i <= v@.len(),
            forall|j: int| 0 <= j < i ==> v@[j] != x,
        decreases v@.len() - i,
    {
        if v[i] == x {
            return true;
        }
        i = i + 1;
    }
    false
}

/// Whether some change in `s` writes `idx`.
pub(crate) fn find_index(s: &Vec<ParamChange>, idx: i32) -> (r: bool)
    ensures
        r == has_index(s@, idx),
{
    let mut i: usize = 0;
    while i < s.len()
        invariant
            i <= s@.len(),
            forall|j: int| 0 <= j < i ==> s@[j].index != idx,
        decreases s@.len() - i,
    {
        if s[i].index == idx {
            return true;
        }
        i = i + 1;
    }
    false
}

/// Whether some change in `s` writes an index in `lo..=hi`.
pub(crate) fn exec_touches_range(s: &Vec<ParamChange>, lo: i32, hi: i32) -> (r: bool)
    ensures
        r == touches_range(s@, lo, hi),
{
    let mut i: usize = 0;
    while i < s.len()
        invariant
            i <= s@.len(),
            forall|j: int| 0 <= j < i ==> !(lo <= #[trigger] s@[j].index <= hi),
        decreases s@.len() - i,
    {
        if lo <= s[i].index && s[i].index <= hi {
            return true;
        }
        i = i + 1;
    }
    false
}

fn exec_module_touched(s: &Vec<ParamChange>, m: usize) -> (r: bool)
    requires
        m < MODULE_COUNT,
    ensures
        r == module_touched(s@, m as int),
{
    let params = module_params_vec(m);
    let bypass = module_bypass_vec(m);
    let mut i: usize = 0;
    while i < s.len()
        invariant
            i <= s@.len(),
            params@ == module_params(m as int),
            bypass@ == module_bypass(m as int),
            forall|j: int| 0 <= j < i ==> !(module_params(m as int).contains(#[trigger] s@[j].index)
                && !module_bypass(m as int).contains(s@[j].index)),
        decreases s@.len() - i,
    {
        if contains_i32(&params, s[i].index) && !contains_i32(&bypass, s[i].index) {
            return true;
        }
        i = i + 1;
    }
    false
}

fn push_on_if(c: &mut Vec<ParamChange>, cond: bool, idx: i32)
    ensures
        final(c)@ == old(c)@ + on_if(cond, idx),
{
    if cond {
        c.push(ParamChange { index: idx, value: SCALE });
    }
    assert(final(c)@ =~= old(c)@ + on_if(cond, idx));
}

fn add_missing_exec(out: &mut Vec<ParamChange>, cands: &Vec<ParamChange>)
    ensures
        final(out)@ == add_missing(old(out)@, cands@),
{
    let ghost start = out@;
    let mut i: usize = 0;
    assert(cands@.skip(0) =~= cands@);
    while i < cands.len()
        invariant
            i <= cands@.len(),
            add_missing(out@, cands@.skip(i as int)) == add_missing(start, cands@),
        decreases cands@.len() - i,
    {
        let c = cands[i];
        proof {
            assert(cands@.skip(i as int).skip(1) =~= cands@.skip(i as int + 1));
            assert(cands@.skip(i as int)[0] == c);
        }
        if !find_index(out, c.index) {
            out.push(c);
        }
        i = i + 1;
    }
    assert(cands@.skip(i as int) =~= Seq::<ParamChange>::empty());
}

/// In `ReplaceActive` mode: switches on the section toggles that the edited
/// parameters depend on, then switches on the bypass toggles of every module
/// whose knobs the input edits and switches off those of every other module;
/// an index already present is never added or changed. In `Merge` mode the input is returned as it is.
pub fn apply_replace_active_cleaner(mode: MergeMode, params: Vec<ParamChange>) -> (r: Vec<ParamChange>)
    ensures
        mode == MergeMode::Merge ==> r@ == params@,
        mode == MergeMode::ReplaceActive ==> r@ == replace_active(params@),
{
    if mode == MergeMode::Merge {
        return params;
    }
    let mut cands: Vec<ParamChange> = Vec::new();
    let any_eq = exec_touches_range(&params, 53, 82);
    let clean_eq = exec_touches_range(&params, 54, 62) || find_index(&params, 53);
    let rust_eq = exec_touches_range(&params, 64, 72) || find_index(&params, 63);
    let hot_eq = exec_touches_range(&params, 74, 82) || find_index(&params, 73);
    let any_cab = exec_touches_range(&params, 84, 99);
    let cab1 = exec_touches_range(&params, 87, 92) || find_index(&params, 86);
    let cab2 = exec_touches_range(&params, 94, 99) || find_index(&params, 93);
    push_on_if(&mut cands, any_eq, 52);
    push_on_if(&mut cands, clean_eq, 53);
    push_on_if(&mut cands, rust_eq, 63);
    push_on_if(&mut cands, hot_eq, 73);
    push_on_if(&mut cands, any_cab, 83);
    push_on_if(&mut cands, cab1, 86);
    push_on_if(&mut cands, cab2, 93);
    assert(cands@ == section_candidates(params@));
    let mut m: usize = 0;
    while m < MODULE_COUNT
        invariant
            m <= MODULE_COUNT,
            cands@ + bypass_candidates(params@, m as int)
                == section_candidates(params@) + bypass_candidates(params@, 0),
        decreases MODULE_COUNT - m,
    {
        {
            let v: i64 = if exec_module_touched(&params, m) { SCALE } else { 0 };
            let bypass = module_bypass_vec(m);
            let mut k: usize = 0;
            let ghost before = cands@;
            while k < bypass.len()
                invariant
                    k <= bypass@.len(),
                    bypass@ == module_bypass(m as int),
                    cands@ == before + toggle_writes(bypass@.take(k as int), v),
                decreases bypass@.len() - k,
            {
                cands.push(ParamChange { index: bypass[k], value: v });
                proof {
                    assert(bypass@.take(k as int + 1) =~= bypass@.take(k as int).push(bypass@[k as int]));
                    assert(toggle_writes(bypass@.take(k as int + 1), v) =~= toggle_writes(bypass@.take(k as int), v).push(ParamChange { index: bypass@[k as int], value: v }));
                }
                k = k + 1;
            }
            proof {
                assert(bypass@.take(k as int) =~= bypass@);
                assert(cands@ + bypass_candidates(params@, m as int + 1)
                    =~= before + bypass_candidates(params@, m as int));
            }
        }
        m = m + 1;
    }
    proof {
        assert(bypass_candidates(params@, MODULE_COUNT as int) =~= Seq::<ParamChange>::empty());
        assert(cands@ =~= cands@ + bypass_candidates(params@, m as int));
    }
    let mut out = params;
    add_missing_exec(&mut out, &cands);
    out
}

} // verus!
