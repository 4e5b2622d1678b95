use vstd::prelude::*;
use vstd::string::StringExecFns;
use crate::protocol::SCALE;
use crate::value_resolver::{ParamEnumOption, ParamFormatTriplet, ParamFormatSample, SampleTable};
use crate::text::{chars_of, trim_vec, string_of, trim, contains_sub, contains_lit};
use crate::resolver::{normalize, normalize_spec};

verus! {

/// Normalized position of sample `s` out of `n` equal steps over `0..=1`.
pub open spec fn sample_norm(s: int, n: int) -> int {
    (s * SCALE) / n
}

/// Normalized value of sample point `s` of `n` steps (`s` in `0..=n`).
pub fn sample_point(s: u32, n: u32) -> (r: i64)
    requires
        n > 0,
        s <= n,
    ensures
        r == sample_norm(s as int, n as int),
        0 <= r <= SCALE,
{
    proof {
        assert((s as int * SCALE) / (n as int) <= SCALE) by (nonlinear_arith)
            requires s <= n, n > 0;
        assert((s as int * SCALE) / (n as int) >= 0) by (nonlinear_arith)
            requires s >= 0, n > 0;
    }
    ((s as i64) * SCALE) / (n as i64)
}

/// The `steps` sample points (clamped to `3..=201`) spread evenly over `0..=1`.
pub fn sample_norms(steps: usize) -> (r: Vec<i64>)
    ensures
        r@.len() == (if steps < 3 { 3 } else if steps > 201 { 201 } else { steps as int }),
        forall|i: int| 0 <= i < r@.len() ==> #[trigger] r@[i] == sample_norm(i, r@.len() - 1),
{
    let n: u32 = if steps < 3 { 3 } else if steps > 201 { 201 } else { steps as u32 };
    let mut out: Vec<i64> = Vec::new();
    let mut i: u32 = 0;
    while i < n
        invariant
            3 <= n <= 201,
            i <= n,
            out@.len() == i,
            forall|k: int| 0 <= k < i ==> #[trigger] out@[k] == sample_norm(k, n - 1),
        decreases n - i,
    {
        out.push(sample_point(i, n - 1));
        i = i + 1;
    }
    out
}

/// `labels[a..=b]` is a maximal run of equal labels.
pub open spec fn is_run(labels: Seq<Seq<char>>, a: int, b: int) -> bool {
    &&& 0 <= a <= b < labels.len()
    &&& forall|k: int| a <= k <= b ==> #[trigger] labels[k] == labels[a]
    &&& a == 0 || labels[a - 1] != labels[a]
    &&& b == labels.len() - 1 || labels[b + 1] != labels[a]
}

/// The option for `label`: midpoint of the first run of that label.
pub open spec fn option_from_run(labels: Seq<Seq<char>>, samples: int, o: ParamEnumOption) -> bool {
    exists|a: int, b: int| #[trigger] run_witness(labels, samples, o, a, b)
}

/// `labels[a..=b]` is the first run of `o`'s label and `o` is valued at its
/// midpoint.
pub open spec fn run_witness(labels: Seq<Seq<char>>, samples: int, o: ParamEnumOption, a: int, b: int) -> bool {
    &&& is_run(labels, a, b)
    &&& labels[a] == o.label@
    &&& forall|k: int| 0 <= k < a ==> #[trigger] labels[k] != labels[a]
    &&& o.value == sample_norm((a + b) / 2, samples)
}

pub open spec fn has_label(o: Seq<ParamEnumOption>, lab: Seq<char>) -> bool {
    exists|j: int| 0 <= j < o.len() && (#[trigger] o[j]).label@ == lab
}

/// An option built from a run is valued at a sample point whose display is
/// the option's label.
pub proof fn lemma_option_shows_label(labels: Seq<Seq<char>>, samples: int, o: ParamEnumOption)
    requires
        option_from_run(labels, samples, o),
    ensures
        exists|m: int| 0 <= m < labels.len() && #[trigger] labels[m] == o.label@ && o.value == sample_norm(m, samples),
{
    let (a, b) = choose|a: int, b: int| #[trigger] run_witness(labels, samples, o, a, b);
    let m = (a + b) / 2;
    assert(is_run(labels, a, b));
    assert(a <= m <= b);
    assert(labels[m] == labels[a]);
    assert(o.value == sample_norm(m, samples));
}

fn run_end(labels: &Vec<String>, a: usize) -> (b: usize)
    requires
        a < labels@.len(),
    ensures
        a <= b < labels@.len(),
        forall|k: int| a <= k <= b ==> (#[trigger] labels@[k])@ == labels@[a as int]@,
        b == labels@.len() - 1 || labels@[b + 1]@ != labels@[a as int]@,
{
    let mut b = a;
    while b < labels.len() - 1 && labels[b + 1] == labels[a]
        invariant
            a <= b < labels@.len(),
            forall|k: int| a <= k <= b ==> (#[trigger] labels@[k])@ == labels@[a as int]@,
        decreases labels@.len() - b,
    {
        b = b + 1;
    }
    b
}

fn label_in(o: &Vec<ParamEnumOption>, lab: &String) -> (r: bool)
    ensures
        r == has_label(o@, lab@),
{
    let mut j: usize = 0;
    while j < o.len()
        invariant
            j <= o@.len(),
            forall|m: int| 0 <= m < j ==> (#[trigger] o@[m]).label@ != lab@,
        decreases o@.len() - j,
    {
        if o[j].label == *lab {
            return true;
        }
        j = j + 1;
    }
    false
}

/// Recovers enumeration options from the labels shown at `samples + 1`
/// evenly spaced points (`labels[s]` is the trimmed display at point `s`).
/// Each distinct non-empty label yields one option, in order of first
/// appearance, valued at the midpoint of its first run; at most `max_options`.
/// Every option's value is a sample point at which its label is shown.
pub fn probe_enum(labels: &Vec<String>, samples: u32, max_options: usize) -> (r: Vec<ParamEnumOption>)
    requires
        labels@.len() == samples as int + 1,
        samples > 0,
    ensures
        r@.len() <= max_options,
        forall|j: int| 0 <= j < r@.len() ==> (#[trigger] r@[j]).label@.len() > 0,
        forall|j: int, k: int| #![trigger r@[j], r@[k]] 0 <= j < k < r@.len() ==> r@[j].label@ != r@[k].label@,
        forall|j: int| 0 <= j < r@.len() ==> option_from_run(labels@.map_values(|l: String| l@), samples as int, #[trigger] r@[j]),
        forall|s: int| 0 <= s < labels@.len() && (#[trigger] labels@[s])@.len() > 0 && r@.len() < max_options
            ==> has_label(r@, labels@[s]@),
        forall|j: int| 0 <= j < r@.len() ==> 0 <= (#[trigger] r@[j]).value <= SCALE,
        forall|j: int, k: int| #![trigger r@[j], r@[k]] 0 <= j < k < r@.len() ==> r@[j].value <= r@[k].value,
        samples <= SCALE ==> forall|j: int, k: int| #![trigger r@[j], r@[k]] 0 <= j < k < r@.len() ==> r@[j].value < r@[k].value,
{
    let ghost ls = labels@.map_values(|l: String| l@);
    let ghost mut mids: Seq<int> = Seq::empty();
    let n = labels.len();
    let mut out: Vec<ParamEnumOption> = Vec::new();
    let mut a: usize = 0;
    while a < n
        invariant
            n == labels@.len(),
            n == samples as int + 1,
            samples > 0,
            ls == labels@.map_values(|l: String| l@),
            a <= n,
            0 < a < n ==> ls[a - 1] != ls[a as int],
            out@.len() <= max_options,
            forall|j: int| 0 <= j < out@.len() ==> (#[trigger] out@[j]).label@.len() > 0,
            forall|j: int, k: int| #![trigger out@[j], out@[k]] 0 <= j < k < out@.len() ==> out@[j].label@ != out@[k].label@,
            forall|j: int| 0 <= j < out@.len() ==> option_from_run(ls, samples as int, #[trigger] out@[j]),
            forall|k: int| 0 <= k < a && (#[trigger] ls[k]).len() > 0 && out@.len() < max_options
                ==> has_label(out@, ls[k]),
            mids.len() == out@.len(),
            forall|j: int| 0 <= j < mids.len() ==> 0 <= #[trigger] mids[j] < a && mids[j] <= samples
                && out@[j].value == sample_norm(mids[j], samples as int),
            forall|j: int, k: int| #![trigger mids[j], mids[k]] 0 <= j < k < mids.len() ==> mids[j] < mids[k],
        decreases n - a,
    {
        let b = run_end(labels, a);
        proof {
            assert forall|k: int| a <= k <= b implies #[trigger] ls[k] == ls[a as int] by {
                assert(labels@[k]@ == labels@[a as int]@);
            }
            if b < n - 1 { assert(ls[b + 1] != ls[a as int]); }
        }
        let nonempty = labels[a].as_str().unicode_len() > 0;
        if nonempty && out.len() < max_options && !label_in(&out, &labels[a]) {
            let mid = (a + (b - a) / 2) as u32;
            assert(mid == (a + b) / 2);
            let v = sample_point(mid, samples);
            let ghost old_out = out@;
            let o = ParamEnumOption { value: v, label: labels[a].clone() };
            proof {
                assert(o.label@ == ls[a as int]);
                assert forall|k: int| 0 <= k < a implies #[trigger] ls[k] != ls[a as int] by {
                    if ls[k] == ls[a as int] {
                        assert(has_label(out@, ls[k]));
                    }
                }
                assert(is_run(ls, a as int, b as int));
                assert(run_witness(ls, samples as int, o, a as int, b as int));
                assert(option_from_run(ls, samples as int, o));
            }
            out.push(o);
            proof {
                mids = mids.push(mid as int);
                assert forall|j: int| 0 <= j < out@.len() implies option_from_run(ls, samples as int, #[trigger] out@[j]) by {
                    if j < old_out.len() { assert(out@[j] == old_out[j]); }
                }
                assert forall|j: int, k: int| #![trigger out@[j], out@[k]] 0 <= j < k < out@.len() implies out@[j].label@ != out@[k].label@ by {
                    if k == old_out.len() {
                        assert(out@[j] == old_out[j]);
                        if out@[j].label@ == out@[k].label@ {
                            assert(has_label(old_out, ls[a as int]));
                        }
                    } else {
                        assert(out@[j] == old_out[j] && out@[k] == old_out[k]);
                    }
                }
                assert forall|k: int| 0 <= k < b + 1 && (#[trigger] ls[k]).len() > 0 && out@.len() < max_options
                    implies has_label(out@, ls[k]) by {
                    if k < a {
                        let j = choose|j: int| 0 <= j < old_out.len() && (#[trigger] old_out[j]).label@ == ls[k];
                        assert(out@[j] == old_out[j]);
                    } else {
                        assert(out@[old_out.len() as int].label@ == ls[k]);
                    }
                }
                assert forall|j: int| 0 <= j < out@.len() implies (#[trigger] out@[j]).label@.len() > 0 by {
                    if j < old_out.len() { assert(out@[j] == old_out[j]); }
                    else { assert(labels@[a as int]@.len() > 0); }
                }
            }
        } else {
            proof {
                assert forall|k: int| 0 <= k < b + 1 && (#[trigger] ls[k]).len() > 0 && out@.len() < max_options
                    implies has_label(out@, ls[k]) by {
                    if k >= a {
                        assert(ls[k] == ls[a as int]);
                        assert(labels@[a as int]@ == ls[a as int]);
                    }
                }
            }
        }
        a = b + 1;
    }
    proof {
        assert forall|s: int| 0 <= s < labels@.len() && (#[trigger] labels@[s])@.len() > 0 && out@.len() < max_options
            implies has_label(out@, labels@[s]@) by {
            assert(ls[s] == labels@[s]@);
        }
        assert forall|j: int| 0 <= j < out@.len() implies 0 <= (#[trigger] out@[j]).value <= SCALE by {
            lemma_sample_norm_range(mids[j], samples as int);
        }
        assert forall|j: int, k: int| #![trigger out@[j], out@[k]] 0 <= j < k < out@.len() implies out@[j].value <= out@[k].value
            && (samples <= SCALE ==> out@[j].value < out@[k].value) by {
            assert(mids[j] < mids[k]);
            lemma_sample_norm_order(mids[j], mids[k], samples as int);
        }
    }
    out
}

proof fn lemma_sample_norm_range(m: int, n: int)
    requires
        0 <= m <= n,
        n > 0,
    ensures
        0 <= sample_norm(m, n) <= SCALE,
{
    assert((m * SCALE) / n <= SCALE) by (nonlinear_arith)
        requires 0 <= m <= n, n > 0;
    assert((m * SCALE) / n >= 0) by (nonlinear_arith)
        requires 0 <= m, n > 0;
}

proof fn lemma_sample_norm_order(m1: int, m2: int, n: int)
    requires
        0 <= m1 < m2,
        n > 0,
    ensures
        sample_norm(m1, n) <= sample_norm(m2, n),
        n <= SCALE ==> sample_norm(m1, n) < sample_norm(m2, n),
{
    assert((m1 * SCALE) / n <= (m2 * SCALE) / n) by (nonlinear_arith)
        requires 0 <= m1 < m2, n > 0;
    if n <= SCALE {
        assert(m2 * SCALE >= m1 * SCALE + n) by (nonlinear_arith)
            requires m1 < m2, n <= SCALE;
        assert((m1 * SCALE) / n < (m2 * SCALE) / n) by (nonlinear_arith)
            requires m2 * SCALE >= m1 * SCALE + n, n > 0, m1 >= 0;
    }
}

/// The three displays at normalized 0, 0.5 and 1, trimmed; `None` when all
/// three are empty.
pub fn probe_format_triplet(min: &str, mid: &str, max: &str) -> (r: Option<ParamFormatTriplet>)
    ensures
        r is None <==> trim(min@).len() == 0 && trim(mid@).len() == 0 && trim(max@).len() == 0,
        r matches Some(t) ==> t.min@ == trim(min@) && t.mid@ == trim(mid@) && t.max@ == trim(max@),
{
    let a = trim_vec(&chars_of(min));
    let b = trim_vec(&chars_of(mid));
    let c = trim_vec(&chars_of(max));
    if a.len() == 0 && b.len() == 0 && c.len() == 0 {
        None
    } else {
        Some(ParamFormatTriplet { min: string_of(&a), mid: string_of(&b), max: string_of(&c) })
    }
}

/// One enumerated selector to probe: its index, how many steps to sample and
/// how many options to keep.
#[derive(Clone, Copy, Debug, PartialEq, Eq, Structural)]
pub struct EnumProbeTarget {
    pub index: i32,
    pub samples: u32,
    pub max_options: usize,
}

/// The enumerated selectors probed on a resolved instance: cab type, both mic
/// IR selectors, reverb mode and WOW type.
pub fn enum_probe_targets() -> (r: Vec<EnumProbeTarget>)
    ensures
        r@ == seq![
            EnumProbeTarget { index: 84, samples: 512, max_options: 64 },
            EnumProbeTarget { index: 92, samples: 2048, max_options: 512 },
            EnumProbeTarget { index: 99, samples: 2048, max_options: 512 },
            EnumProbeTarget { index: 113, samples: 256, max_options: 32 },
            EnumProbeTarget { index: 5, samples: 128, max_options: 32 },
        ],
{
    let r = vec![
        EnumProbeTarget { index: 84, samples: 512, max_options: 64 },
        EnumProbeTarget { index: 92, samples: 2048, max_options: 512 },
        EnumProbeTarget { index: 99, samples: 2048, max_options: 512 },
        EnumProbeTarget { index: 113, samples: 256, max_options: 32 },
        EnumProbeTarget { index: 5, samples: 128, max_options: 32 },
    ];
    assert(r@ =~= seq![
        EnumProbeTarget { index: 84, samples: 512, max_options: 64 },
        EnumProbeTarget { index: 92, samples: 2048, max_options: 512 },
        EnumProbeTarget { index: 99, samples: 2048, max_options: 512 },
        EnumProbeTarget { index: 113, samples: 256, max_options: 32 },
        EnumProbeTarget { index: 5, samples: 128, max_options: 32 },
    ]);
    r
}

/// Parameters whose format triplet is probed: gains and gate, amp knobs,
/// graphic-EQ bands, cab mic position/distance/level, delay and reverb.
pub open spec fn is_triplet_target(i: i32) -> bool {
    (0 <= i <= 2) || (30 <= i <= 51) || (54 <= i <= 82) || i == 87 || i == 88 || i == 89 || i == 94
        || i == 95 || i == 96 || i == 105 || i == 106 || i == 108 || (114 <= i <= 117)
}

/// Parameters whose dense format samples are probed in the default mode.
pub open spec fn is_sample_target(i: i32) -> bool {
    (0 <= i <= 2) || (29 <= i <= 51) || (54 <= i <= 82) || (83 <= i <= 85) || i == 87 || i == 88
        || i == 89 || i == 92 || i == 94 || i == 95 || i == 96 || i == 99 || i == 101 || i == 105
        || i == 106 || i == 108 || (112 <= i <= 117)
}

pub open spec fn is_target(sample: bool, i: i32) -> bool {
    if sample { is_sample_target(i) } else { is_triplet_target(i) }
}

/// The indices in `0..=limit` satisfying a test, ascending.
fn indices_where(limit: i32, sample: bool) -> (r: Vec<i32>)
    requires
        0 <= limit < 4096,
    ensures
        forall|j: int, k: int| #![trigger r@[j], r@[k]] 0 <= j < k < r@.len() ==> r@[j] < r@[k],
        forall|j: int| 0 <= j < r@.len() ==> 0 <= #[trigger] r@[j] <= limit
            && is_target(sample, r@[j]),
        forall|i: i32| 0 <= i <= limit && #[trigger] is_target(sample, i)
            ==> r@.contains(i),
{
    let mut out: Vec<i32> = Vec::new();
    let mut i: i32 = 0;
    while i <= limit
        invariant
            0 <= i <= limit + 1,
            limit < 4096,
            forall|j: int, k: int| #![trigger out@[j], out@[k]] 0 <= j < k < out@.len() ==> out@[j] < out@[k],
            forall|j: int| 0 <= j < out@.len() ==> 0 <= #[trigger] out@[j] < i
                && is_target(sample, out@[j]),
            forall|x: i32| 0 <= x < i && #[trigger] is_target(sample, x)
                ==> out@.contains(x),
        decreases limit + 1 - i,
    {
        let hit = if sample {
            (0 <= i && i <= 2) || (29 <= i && i <= 51) || (54 <= i && i <= 82) || (83 <= i && i <= 85) || i == 87 || i == 88
                || i == 89 || i == 92 || i == 94 || i == 95 || i == 96 || i == 99 || i == 101 || i == 105
                || i == 106 || i == 108 || (112 <= i && i <= 117)
        } else {
            (0 <= i && i <= 2) || (30 <= i && i <= 51) || (54 <= i && i <= 82) || i == 87 || i == 88 || i == 89 || i == 94
                || i == 95 || i == 96 || i == 105 || i == 106 || i == 108 || (114 <= i && i <= 117)
        };
        if hit {
            let ghost before = out@;
            out.push(i);
            proof {
                assert(is_target(sample, i));
                assert forall|x: i32| 0 <= x < i + 1 && #[trigger] is_target(sample, x)
                    implies out@.contains(x) by {
                    if x < i {
                        let j = choose|j: int| 0 <= j < before.len() && before[j] == x;
                        assert(out@[j] == x);
                    } else {
                        assert(out@[out@.len() - 1] == x);
                    }
                }
            }
        } else {
            proof {
                assert forall|x: i32| 0 <= x < i + 1 && #[trigger] is_target(sample, x)
                    implies out@.contains(x) by {
                    if x == i {}
                }
            }
        }
        i = i + 1;
    }
    out
}

/// Parameters whose format triplet is probed, ascending and without repeats.
pub fn format_probe_indices() -> (r: Vec<i32>)
    ensures
        forall|j: int, k: int| #![trigger r@[j], r@[k]] 0 <= j < k < r@.len() ==> r@[j] < r@[k],
        forall|j: int| 0 <= j < r@.len() ==> is_triplet_target(#[trigger] r@[j]),
        forall|i: i32| is_triplet_target(i) ==> r@.contains(i),
{
    let r = indices_where(117, false);
    proof {
        assert forall|i: i32| is_triplet_target(i) implies r@.contains(i) by {
            assert(is_target(false, i));
        }
        assert forall|j: int| 0 <= j < r@.len() implies is_triplet_target(#[trigger] r@[j]) by {
            assert(is_target(false, r@[j]));
        }
    }
    r
}

/// Parameters whose format samples are probed: every parameter in `0..n`
/// when `all` is set, else the tone-relevant ones, ascending.
pub fn sample_probe_indices(all: bool, num_params: u32) -> (r: Vec<i32>)
    ensures
        all ==> r@.len() == (if num_params > 4096 { 4096 } else { num_params as int }),
        all ==> forall|j: int| 0 <= j < r@.len() ==> #[trigger] r@[j] == j,
        !all ==> forall|j: int, k: int| #![trigger r@[j], r@[k]] 0 <= j < k < r@.len() ==> r@[j] < r@[k],
        !all ==> forall|j: int| 0 <= j < r@.len() ==> is_sample_target(#[trigger] r@[j]),
        !all ==> forall|i: i32| is_sample_target(i) ==> r@.contains(i),
{
    if !all {
        let r = indices_where(117, true);
        proof {
            assert forall|i: i32| is_sample_target(i) implies r@.contains(i) by {
                assert(is_target(true, i));
            }
            assert forall|j: int| 0 <= j < r@.len() implies is_sample_target(#[trigger] r@[j]) by {
                assert(is_target(true, r@[j]));
            }
        }
        return r;
    }
    let n: i32 = if num_params > 4096 { 4096 } else { num_params as i32 };
    let mut out: Vec<i32> = Vec::new();
    let mut i: i32 = 0;
    while i < n
        invariant
            0 <= i <= n <= 4096,
            out@.len() == i,
            forall|j: int| 0 <= j < out@.len() ==> #[trigger] out@[j] == j,
        decreases n - i,
    {
        out.push(i);
        i = i + 1;
    }
    out
}

/// The samples kept from displays read at `norms`: each non-empty trimmed
/// display with its point, in order.
pub open spec fn kept_samples(norms: Seq<i64>, shown: Seq<Seq<char>>) -> Seq<(i64, Seq<char>)>
    decreases shown.len(),
{
    if shown.len() == 0 || norms.len() < shown.len() {
        Seq::empty()
    } else {
        let k = shown.len() - 1;
        let rest = kept_samples(norms, shown.drop_last());
        if trim(shown[k]).len() > 0 { rest.push((norms[k], trim(shown[k]))) } else { rest }
    }
}

/// Builds the sample table of parameter `index` from the displays read at
/// the points `norms` (`shown[k]` was read at `norms[k]`); `None` when every
/// display is empty.
pub fn sample_table(index: i32, norms: &Vec<i64>, shown: &Vec<String>) -> (r: Option<SampleTable>)
    requires
        norms@.len() == shown@.len(),
    ensures
        ({
            let want = kept_samples(norms@, shown@.map_values(|x: String| x@));
            &&& r is None <==> want.len() == 0
            &&& r matches Some(t) ==> t.index == index && t.samples@.len() == want.len()
                && forall|j: int| 0 <= j < want.len() ==> (#[trigger] t.samples@[j]).norm == want[j].0
                    && t.samples@[j].formatted@ == want[j].1
        }),
{
    let ghost sh = shown@.map_values(|x: String| x@);
    let mut out: Vec<ParamFormatSample> = Vec::new();
    let mut k: usize = 0;
    while k < shown.len()
        invariant
            norms@.len() == shown@.len(),
            sh == shown@.map_values(|x: String| x@),
            k <= shown@.len(),
            out@.len() == kept_samples(norms@, sh.take(k as int)).len(),
            forall|j: int| 0 <= j < out@.len() ==> (#[trigger] out@[j]).norm == kept_samples(norms@, sh.take(k as int))[j].0
                && out@[j].formatted@ == kept_samples(norms@, sh.take(k as int))[j].1,
        decreases shown@.len() - k,
    {
        let t = trim_vec(&chars_of(shown[k].as_str()));
        proof {
            assert(sh.take(k as int + 1).drop_last() =~= sh.take(k as int));
            assert(sh.take(k as int + 1)[k as int] == shown@[k as int]@);
        }
        if t.len() > 0 {
            out.push(ParamFormatSample { norm: norms[k], formatted: string_of(&t) });
        }
        k = k + 1;
    }
    proof { assert(sh.take(k as int) =~= sh); }
    if out.len() == 0 {
        None
    } else {
        Some(SampleTable { index, samples: out })
    }
}

/// How a probed parameter name compares with what the map expects there.
#[derive(Clone, Copy, Debug, PartialEq, Eq, Structural)]
pub enum AnchorStatus {
    /// The plugin reports no parameter at the index.
    Missing,
    /// The name fits the expected role.
    Present,
    /// A parameter exists but its name does not fit.
    Suspicious,
}

/// A switch is expected: the normalized name mentions "active", "on" or "enable".
pub open spec fn looks_like_switch(name: Seq<char>) -> bool {
    let n = normalize_spec(name);
    contains_sub(n, "active"@) || contains_sub(n, "on"@) || contains_sub(n, "enable"@)
}

/// A dry/wet control is expected: the normalized name mentions "mix",
/// "drywet", or both "dry" and "wet".
pub open spec fn looks_like_mix(name: Seq<char>) -> bool {
    let n = normalize_spec(name);
    contains_sub(n, "mix"@) || contains_sub(n, "drywet"@) || (contains_sub(n, "dry"@) && contains_sub(n, "wet"@))
}

/// Checks the name at a module's switch index.
pub fn anchor_status(name: Option<&str>) -> (r: AnchorStatus)
    ensures
        name is None ==> r == AnchorStatus::Missing,
        name matches Some(n) ==> r == (if looks_like_switch(n@) { AnchorStatus::Present } else { AnchorStatus::Suspicious }),
{
    match name {
        None => AnchorStatus::Missing,
        Some(n) => {
            let v = chars_of(normalize(n).as_str());
            if contains_lit(&v, "active") || contains_lit(&v, "on") || contains_lit(&v, "enable") {
                AnchorStatus::Present
            } else {
                AnchorStatus::Suspicious
            }
        }
    }
}

/// Checks the name at a module's mix index.
pub fn mix_status(name: Option<&str>) -> (r: AnchorStatus)
    ensures
        name is None ==> r == AnchorStatus::Missing,
        name matches Some(n) ==> r == (if looks_like_mix(n@) { AnchorStatus::Present } else { AnchorStatus::Suspicious }),
{
    match name {
        None => AnchorStatus::Missing,
        Some(n) => {
            let v = chars_of(normalize(n).as_str());
            if contains_lit(&v, "mix") || contains_lit(&v, "drywet") || (contains_lit(&v, "dry") && contains_lit(&v, "wet")) {
                AnchorStatus::Present
            } else {
                AnchorStatus::Suspicious
            }
        }
    }
}

} // verus!
