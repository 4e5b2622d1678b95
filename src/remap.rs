use vstd::prelude::*;
use crate::protocol::ParamChange;

verus! {

/// A user-provided rewrite of one canonical parameter index to the index
/// that the installed plugin build actually uses.
#[derive(Clone, Copy, Debug, PartialEq, Eq, Structural)]
pub struct IndexRemapEntry {
    pub from: i32,
    pub to: i32,
}

/// Where `idx` is sent: the target of the last non-identity entry from `idx`.
pub open spec fn remap_lookup(s: Seq<IndexRemapEntry>, idx: i32) -> Option<i32>
    decreases s.len(),
{
    if s.len() == 0 {
        None
    } else if s.last().from == idx && s.last().from != s.last().to {
        Some(s.last().to)
    } else {
        remap_lookup(s.drop_last(), idx)
    }
}

pub open spec fn remapped_index(s: Seq<IndexRemapEntry>, idx: i32) -> i32 {
    match remap_lookup(s, idx) {
        Some(t) => t,
        None => idx,
    }
}

/// Looks up where `idx` is sent by `remap`, if anywhere.
pub fn lookup_remap(remap: &Vec<IndexRemapEntry>, idx: i32) -> (r: Option<i32>)
    ensures
        r == remap_lookup(remap@, idx),
{
    let mut k: usize = remap.len();
    assert(remap@.take(k as int) =~= remap@);
    while k > 0
        invariant
            k <= remap@.len(),
            remap_lookup(remap@, idx) == remap_lookup(remap@.take(k as int), idx),
        decreases k,
    {
        let e = remap[k - 1];
        proof {
            assert(remap@.take(k as int).drop_last() =~= remap@.take(k as int - 1));
        }
        if e.from == idx && e.from != e.to {
            return Some(e.to);
        }
        k = k - 1;
    }
    proof {
        assert(remap@.take(0) =~= Seq::<IndexRemapEntry>::empty());
    }
    None
}

/// Rewrites each change's index through `remap`; values and order are kept.
pub fn apply_index_remap(params: Vec<ParamChange>, remap: &Vec<IndexRemapEntry>) -> (r: Vec<ParamChange>)
    ensures
        r@.len() == params@.len(),
        forall|j: int| 0 <= j < r@.len() ==> #[trigger] r@[j] == (ParamChange {
            index: remapped_index(remap@, params@[j].index),
            value: params@[j].value,
        }),
{
    let mut out: Vec<ParamChange> = Vec::new();
    let mut i: usize = 0;
    while i < params.len()
        invariant
            i <= params@.len(),
            out@.len() == i,
            forall|j: int| 0 <= j < i ==> #[trigger] out@[j] == (ParamChange {
                index: remapped_index(remap@, params@[j].index),
                value: params@[j].value,
            }),
        decreases params@.len() - i,
    {
        let p = params[i];
        let idx = match lookup_remap(remap, p.index) {
            Some(t) => t,
            None => p.index,
        };
        out.push(ParamChange { index: idx, value: p.value });
        i = i + 1;
    }
    out
}

/// Entry `s[0]` is in effect: it is no identity, and no later entry remaps
/// the same index.
pub open spec fn entry_in_effect(s: Seq<IndexRemapEntry>) -> bool {
    &&& s[0].from != s[0].to
    &&& forall|j: int| 1 <= j < s.len() ==> (#[trigger] s[j]).from != s[0].from
}

/// The entries in effect, each turned around (actual back to canonical).
pub open spec fn reversed_remap(s: Seq<IndexRemapEntry>) -> Seq<IndexRemapEntry>
    decreases s.len(),
{
    if s.len() == 0 {
        Seq::empty()
    } else if entry_in_effect(s) {
        seq![IndexRemapEntry { from: s[0].to, to: s[0].from }] + reversed_remap(s.skip(1))
    } else {
        reversed_remap(s.skip(1))
    }
}

/// Turns the entries in effect around, so that an actual index can be traced
/// back to its canonical one.
pub fn reverse_index_remap(remap: &Vec<IndexRemapEntry>) -> (r: Vec<IndexRemapEntry>)
    ensures
        r@ == reversed_remap(remap@),
{
    let mut out: Vec<IndexRemapEntry> = Vec::new();
    let n = remap.len();
    let mut k: usize = n;
    while k > 0
        invariant
            n == remap@.len(),
            k <= n,
            out@ == reversed_remap(remap@.skip(k as int)),
        decreases k,
    {
        let e = remap[k - 1];
        let ghost t = remap@.skip(k as int - 1);
        proof {
            assert(t.skip(1) =~= remap@.skip(k as int));
            assert(t[0] == e);
        }
        let mut later = false;
        let mut j: usize = k;
        while j < n
            invariant
                n == remap@.len(),
                k <= j <= n,
                t == remap@.skip(k as int - 1),
                later <==> exists|m: int| k <= m < j && (#[trigger] remap@[m]).from == e.from,
            decreases n - j,
        {
            if remap[j].from == e.from {
                later = true;
            }
            j = j + 1;
        }
        proof {
            if later {
                let m = choose|m: int| k <= m < j && (#[trigger] remap@[m]).from == e.from;
                assert(t[m - k + 1] == remap@[m]);
            } else {
                assert forall|m: int| 1 <= m < t.len() implies (#[trigger] t[m]).from != t[0].from by {
                    assert(t[m] == remap@[m + k - 1]);
                }
            }
        }
        if e.from != e.to && !later {
            out.insert(0, IndexRemapEntry { from: e.to, to: e.from });
            proof {
                assert(out@ =~= seq![IndexRemapEntry { from: e.to, to: e.from }] + reversed_remap(remap@.skip(k as int)));
            }
        }
        k = k - 1;
    }
    proof {
        assert(remap@.skip(0) =~= remap@);
    }
    out
}

} // verus!
