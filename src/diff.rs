use vstd::prelude::*;
use vstd::string::*;
use crate::protocol::ParamChange;
use crate::cleaner::has_index;
use crate::remap::{IndexRemapEntry, remap_lookup, remapped_index, lookup_remap};

verus! {

/// One parameter whose value differs between two write sets.
#[derive(Clone, Debug)]
pub struct DiffItem {
    pub label: String,
    pub index: i32,
    pub old_value: Option<i64>,
    pub new_value: Option<i64>,
}

/// Display label of a canonical parameter index.
pub open spec fn label_text(i: i32) -> &'static str {
    if i == 0 { "Global: Input Gain" }
    else if i == 1 { "Global: Output Gain" }
    else if i == 2 { "Global: Noise Gate" }
    else if i == 29 { "Amp: Type Select" }
    else if i == 13 { "Overdrive: Active" }
    else if i == 14 { "Overdrive: Drive" }
    else if i == 15 { "Overdrive: Tone" }
    else if i == 16 { "Overdrive: Level" }
    else if i == 101 { "Delay: Active" }
    else if i == 105 { "Delay: Mix" }
    else if i == 108 { "Delay: Time" }
    else if i == 112 { "Reverb: Active" }
    else if i == 114 { "Reverb: Mix" }
    else if i == 115 { "Reverb: Time" }
    else if i == 116 { "Reverb: Low Cut" }
    else if i == 117 { "Reverb: High Cut" }
    else { "Param" }
}

/// Label of `index`, traced back through `reverse` (actual to canonical)
/// before the table is consulted.
pub fn label_for_index(index: i32, reverse: &Vec<IndexRemapEntry>) -> (r: &'static str)
    ensures
        r@ == label_text(remapped_index(reverse@, index))@,
{
    let i = match lookup_remap(reverse, index) {
        Some(c) => c,
        None => index,
    };
    if i == 0 { "Global: Input Gain" }
    else if i == 1 { "Global: Output Gain" }
    else if i == 2 { "Global: Noise Gate" }
    else if i == 29 { "Amp: Type Select" }
    else if i == 13 { "Overdrive: Active" }
    else if i == 14 { "Overdrive: Drive" }
    else if i == 15 { "Overdrive: Tone" }
    else if i == 16 { "Overdrive: Level" }
    else if i == 101 { "Delay: Active" }
    else if i == 105 { "Delay: Mix" }
    else if i == 108 { "Delay: Time" }
    else if i == 112 { "Reverb: Active" }
    else if i == 114 { "Reverb: Mix" }
    else if i == 115 { "Reverb: Time" }
    else if i == 116 { "Reverb: Low Cut" }
    else if i == 117 { "Reverb: High Cut" }
    else { "Param" }
}

/// The value that `s` writes to `idx`: its last write there, if any.
pub open spec fn value_at(s: Seq<ParamChange>, idx: i32) -> Option<i64>
    decreases s.len(),
{
    if s.len() == 0 {
        None
    } else if s.last().index == idx {
        Some(s.last().value)
    } else {
        value_at(s.drop_last(), idx)
    }
}

proof fn lemma_value_at_some(s: Seq<ParamChange>, idx: i32)
    ensures
        value_at(s, idx) is Some <==> has_index(s, idx),
    decreases s.len(),
{
    if s.len() > 0 {
        let t = s.drop_last();
        lemma_value_at_some(t, idx);
        if has_index(t, idx) {
            let j = choose|j: int| 0 <= j < t.len() && #[trigger] t[j].index == idx;
            assert(s[j].index == idx);
        }
        if has_index(s, idx) && s.last().index != idx {
            let j = choose|j: int| 0 <= j < s.len() && #[trigger] s[j].index == idx;
            assert(t[j].index == idx);
        }
        if s.last().index == idx {
            assert(s[s.len() - 1].index == idx);
        }
    }
}

/// The value that `s` writes to `idx`: its last write there, if any.
pub fn value_at_exec(s: &Vec<ParamChange>, idx: i32) -> (r: Option<i64>)
    ensures
        r == value_at(s@, idx),
{
    let mut k: usize = s.len();
    assert(s@.take(k as int) =~= s@);
    while k > 0
        invariant
            k <= s@.len(),
            value_at(s@, idx) == value_at(s@.take(k as int), idx),
        decreases k,
    {
        proof {
            assert(s@.take(k as int).drop_last() =~= s@.take(k as int - 1));
        }
        if s[k - 1].index == idx {
            return Some(s[k - 1].value);
        }
        k = k - 1;
    }
    None
}

/// What the diff of `old` and `new` reports about `idx`, given the reverse
/// remap used for labels.
pub open spec fn diff_item_for(
    old: Seq<ParamChange>,
    new: Seq<ParamChange>,
    reverse: Seq<IndexRemapEntry>,
    d: DiffItem,
) -> bool {
    &&& d.old_value == value_at(old, d.index)
    &&& d.new_value == value_at(new, d.index)
    &&& d.old_value != d.new_value
    &&& d.label@ == label_text(remapped_index(reverse, d.index))@
}

pub open spec fn above(prev: Option<i32>, i: i32) -> bool {
    match prev {
        Some(p) => p < i,
        None => true,
    }
}

/// Smallest index above `prev` written by either list (or `None`).
fn next_key(old: &Vec<ParamChange>, new: &Vec<ParamChange>, prev: Option<i32>) -> (r: Option<i32>)
    ensures
        r matches Some(k) ==> (has_index(old@, k) || has_index(new@, k))
            && above(prev, k),
        forall|i: i32| (has_index(old@, i) || has_index(new@, i))
            && above(prev, i) ==> (r matches Some(k) && k <= i),
{
    let mut best: Option<i32> = None;
    let mut j: usize = 0;
    while j < old.len()
        invariant
            j <= old@.len(),
            best matches Some(k) ==> has_index(old@, k) && above(prev, k),
            forall|m: int| 0 <= m < j && above(prev, old@[m].index)
                ==> (best matches Some(k) && k <= #[trigger] old@[m].index),
        decreases old@.len() - j,
    {
        let i = old[j].index;
        let above = match prev { Some(p) => p < i, None => true };
        if above {
            match best {
                Some(b) => { if i < b { best = Some(i); } }
                None => { best = Some(i); }
            }
        }
        j = j + 1;
    }
    let ghost best_old = best;
    proof {
        if best_old is None {
            assert forall|m: int| 0 <= m < old@.len() implies !above(prev, #[trigger] old@[m].index) by {
                if above(prev, old@[m].index) {
                    assert(best matches Some(k) && k <= old@[m].index);
                }
            }
        }
    }
    let mut j: usize = 0;
    while j < new.len()
        invariant
            j <= new@.len(),
            best matches Some(k) ==> (has_index(old@, k) || has_index(new@, k)) && above(prev, k),
            best_old matches Some(k0) ==> (best matches Some(k) && k <= k0),
            best_old is None ==> forall|m: int| 0 <= m < old@.len() ==> !above(prev, #[trigger] old@[m].index),
            best_old matches Some(k0) ==> forall|m: int| 0 <= m < old@.len() && above(prev, old@[m].index)
                ==> k0 <= #[trigger] old@[m].index,
            forall|m: int| 0 <= m < j && above(prev, new@[m].index)
                ==> (best matches Some(k) && k <= #[trigger] new@[m].index),
        decreases new@.len() - j,
    {
        let i = new[j].index;
        let above = match prev { Some(p) => p < i, None => true };
        if above {
            match best {
                Some(b) => { if i < b { best = Some(i); } }
                None => { best = Some(i); }
            }
        }
        j = j + 1;
    }
    proof {
        assert forall|i: i32| (has_index(old@, i) || has_index(new@, i))
            && above(prev, i) implies (best matches Some(k) && k <= i) by {
            if has_index(old@, i) {
                let m = choose|m: int| 0 <= m < old@.len() && #[trigger] old@[m].index == i;
            } else {
                let m = choose|m: int| 0 <= m < new@.len() && #[trigger] new@[m].index == i;
            }
        }
    }
    best
}

/// Lists, in increasing index order, every index whose value differs between
/// `old` and `new` (an absent index counts as no value), labelled through the
/// reverse of `index_remap`.
pub fn diff_params(old: &Vec<ParamChange>, new: &Vec<ParamChange>, index_remap: &Vec<IndexRemapEntry>) -> (r: Vec<DiffItem>)
    ensures
        forall|j: int, k: int| 0 <= j < k < r@.len() ==> r@[j].index < r@[k].index,
        forall|j: int| 0 <= j < r@.len() ==> diff_item_for(old@, new@,
            crate::remap::reversed_remap(index_remap@), #[trigger] r@[j]),
        forall|i: i32| value_at(old@, i) != value_at(new@, i)
            ==> exists|j: int| 0 <= j < r@.len() && #[trigger] r@[j].index == i,
{
    let reverse = crate::remap::reverse_index_remap(index_remap);
    let mut out: Vec<DiffItem> = Vec::new();
    let mut prev: Option<i32> = None;
    loop
        invariant
            reverse@ == crate::remap::reversed_remap(index_remap@),
            forall|j: int, k: int| 0 <= j < k < out@.len() ==> out@[j].index < out@[k].index,
            forall|j: int| 0 <= j < out@.len() ==> diff_item_for(old@, new@, reverse@, #[trigger] out@[j]),
            forall|j: int| 0 <= j < out@.len() ==> (prev matches Some(p) && (#[trigger] out@[j]).index <= p),
            forall|i: i32| value_at(old@, i) != value_at(new@, i) && (prev matches Some(p) && i <= p)
                ==> exists|j: int| 0 <= j < out@.len() && #[trigger] out@[j].index == i,
        decreases (match prev { Some(p) => i32::MAX - p, None => 4294967296int }),
    {
        let key = next_key(old, new, prev);
        match key {
            None => {
                proof {
                    assert forall|i: i32| value_at(old@, i) != value_at(new@, i)
                        implies exists|j: int| 0 <= j < out@.len() && #[trigger] out@[j].index == i by {
                        lemma_value_at_some(old@, i);
                        lemma_value_at_some(new@, i);
                        assert(has_index(old@, i) || has_index(new@, i));
                        if above(prev, i) {
                            assert(key matches Some(k) && k <= i);
                        }
                    }
                }
                return out;
            }
            Some(k) => {
                let o = value_at_exec(old, k);
                let n = value_at_exec(new, k);
                let ghost before = out@;
                if o != n {
                    let label = label_for_index(k, &reverse);
                    let item = DiffItem { label: String::from_str(label), index: k, old_value: o, new_value: n };
                    out.push(item);
                }
                proof {
                    assert forall|i: i32| value_at(old@, i) != value_at(new@, i) && i <= k
                        implies exists|j: int| 0 <= j < out@.len() && #[trigger] out@[j].index == i by {
                        lemma_value_at_some(old@, i);
                        lemma_value_at_some(new@, i);
                        assert(has_index(old@, i) || has_index(new@, i));
                        if above(prev, i) {
                            assert(k <= i);
                        }
                        if prev matches Some(p) && i <= p {
                            let j = choose|j: int| 0 <= j < before.len() && #[trigger] before[j].index == i;
                            assert(out@[j] == before[j]);
                        } else if i == k {
                            assert(out@[out@.len() - 1].index == i);
                        }
                    }
                }
                prev = Some(k);
            }
        }
    }
}

} // verus!
