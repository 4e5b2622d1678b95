use vstd::prelude::*;
use crate::protocol::{Confidence, GojiraInstance};
use crate::text::{is_alnum, lower_seq, contains_sub, chars_of, char_is_alnum, char_lower, string_of, contains_lit, seq_eq};

verus! {

/// One effect slot as the DAW reports it.
#[derive(Clone, Debug)]
pub struct FxInfo {
    pub name: String,
    pub guid: Option<String>,
}

/// One track of the current project as the DAW reports it.
#[derive(Clone, Debug)]
pub struct TrackInfo {
    pub guid: Option<String>,
    pub name: String,
    pub fx: Vec<FxInfo>,
}

/// The tracks of the current project, in order.
#[derive(Clone, Debug)]
pub struct ProjectSnapshot {
    pub tracks: Vec<TrackInfo>,
}

/// Cached location of one effect: `fx_guid` was last seen at slot
/// `fx_index` of the track with `track_guid`.
#[derive(Clone, Debug)]
pub struct FxLookupEntry {
    pub fx_guid: String,
    pub track_guid: String,
    pub fx_index: i32,
}

/// The target plugin's instance cannot be found.
#[derive(Clone, Copy, Debug, PartialEq, Eq, Structural)]
pub enum ResolveError {
    TargetNotFound,
}

pub open spec fn opt_view(o: Option<String>) -> Option<Seq<char>> {
    match o {
        Some(s) => Some(s@),
        None => None,
    }
}

/// Lower-cased ASCII letters and digits of `s`, everything else dropped.
pub open spec fn normalize_spec(s: Seq<char>) -> Seq<char> {
    lower_seq(s.filter(|c: char| is_alnum(c)))
}

/// High when the normalized name holds both the brand and the family token,
/// low when it holds the family token only.
pub open spec fn confidence_of(name: Seq<char>) -> Option<Confidence> {
    let n = normalize_spec(name);
    if contains_sub(n, "archetype"@) && contains_sub(n, "gojira"@) {
        Some(Confidence::High)
    } else if contains_sub(n, "gojira"@) {
        Some(Confidence::Low)
    } else {
        None
    }
}

/// Lower-cases the ASCII letters and digits of `s` and drops the rest.
pub fn normalize(s: &str) -> (r: String)
    ensures
        r@ == normalize_spec(s@),
{
    let v = chars_of(s);
    let mut out: Vec<char> = Vec::new();
    let mut i: usize = 0;
    while i < v.len()
        invariant
            i <= v@.len(),
            v@ == s@,
            out@ == normalize_spec(v@.take(i as int)),
        decreases v@.len() - i,
    {
        let c = v[i];
        proof {
            assert(v@.take(i as int + 1).drop_last() =~= v@.take(i as int));
            reveal(Seq::filter);
        }
        if char_is_alnum(c) {
            out.push(char_lower(c));
            proof {
                assert(out@ =~= normalize_spec(v@.take(i as int + 1)));
            }
        } else {
            proof {
                assert(out@ =~= normalize_spec(v@.take(i as int + 1)));
            }
        }
        i = i + 1;
    }
    proof { assert(v@.take(i as int) =~= v@); }
    string_of(&out)
}

/// Classifies an effect name (see `confidence_of`).
pub fn gojira_confidence(fx_name: &str) -> (r: Option<Confidence>)
    ensures
        r == confidence_of(fx_name@),
{
    let n = chars_of(normalize(fx_name).as_str());
    if contains_lit(&n, "archetype") && contains_lit(&n, "gojira") {
        Some(Confidence::High)
    } else if contains_lit(&n, "gojira") {
        Some(Confidence::Low)
    } else {
        None
    }
}

/// Slot `j` of track `t` is a target-plugin instance the scan reports.
pub open spec fn qualifies(t: TrackInfo, j: int) -> bool {
    &&& t.guid is Some
    &&& confidence_of(t.fx@[j].name@) is Some
    &&& t.fx@[j].guid is Some
}

/// Reported slots of track `t` (at position `ti`) among its first `n`.
pub open spec fn track_hits(t: TrackInfo, ti: int, n: int) -> Seq<(int, int)>
    decreases n,
{
    if n <= 0 {
        Seq::empty()
    } else if qualifies(t, n - 1) {
        track_hits(t, ti, n - 1).push((ti, n - 1))
    } else {
        track_hits(t, ti, n - 1)
    }
}

/// Reported (track, slot) positions over `tracks`, in scan order.
pub open spec fn scan_hits(tracks: Seq<TrackInfo>) -> Seq<(int, int)>
    decreases tracks.len(),
{
    if tracks.len() == 0 {
        Seq::empty()
    } else {
        scan_hits(tracks.drop_last()) + track_hits(tracks.last(), tracks.len() - 1, tracks.last().fx@.len() as int)
    }
}

/// `inst` describes slot `j` of track `t`.
pub open spec fn describes(inst: GojiraInstance, t: TrackInfo, j: int) -> bool {
    &&& opt_view(t.guid) == Some(inst.track_guid@)
    &&& inst.track_name@ == t.name@
    &&& opt_view(t.fx@[j].guid) == Some(inst.fx_guid@)
    &&& inst.fx_name@ == t.fx@[j].name@
    &&& inst.last_known_fx_index == j
    &&& confidence_of(t.fx@[j].name@) == Some(inst.confidence)
}

/// `e` records where slot `j` of track `t` is.
pub open spec fn records(e: FxLookupEntry, t: TrackInfo, j: int) -> bool {
    &&& opt_view(t.fx@[j].guid) == Some(e.fx_guid@)
    &&& opt_view(t.guid) == Some(e.track_guid@)
    &&& e.fx_index == j
}

pub open spec fn slots_fit(snap: ProjectSnapshot) -> bool {
    forall|ti: int| 0 <= ti < snap.tracks@.len() ==> (#[trigger] snap.tracks@[ti]).fx@.len() <= i32::MAX
}

/// Scans the current project for target-plugin instances: one instance and
/// one lookup entry per effect whose name classifies, on a track with a GUID,
/// in track then slot order.
pub fn scan_project_instances(snap: &ProjectSnapshot) -> (r: (Vec<GojiraInstance>, Vec<FxLookupEntry>))
    requires
        slots_fit(*snap),
    ensures
        r.0@.len() == scan_hits(snap.tracks@).len(),
        r.1@.len() == scan_hits(snap.tracks@).len(),
        forall|k: int| 0 <= k < r.0@.len() ==> {
            let h = #[trigger] scan_hits(snap.tracks@)[k];
            describes(r.0@[k], snap.tracks@[h.0], h.1) && records(r.1@[k], snap.tracks@[h.0], h.1)
        },
{
    let mut insts: Vec<GojiraInstance> = Vec::new();
    let mut lookup: Vec<FxLookupEntry> = Vec::new();
    let mut ti: usize = 0;
    let ghost tracks = snap.tracks@;
    while ti < snap.tracks.len()
        invariant
            tracks == snap.tracks@,
            slots_fit(*snap),
            ti <= tracks.len(),
            insts@.len() == scan_hits(tracks.take(ti as int)).len(),
            lookup@.len() == insts@.len(),
            forall|k: int| 0 <= k < insts@.len() ==> {
                let h = #[trigger] scan_hits(tracks.take(ti as int))[k];
                0 <= h.0 < ti && 0 <= h.1 < tracks[h.0].fx@.len()
                && describes(insts@[k], tracks[h.0], h.1) && records(lookup@[k], tracks[h.0], h.1)
            },
        decreases tracks.len() - ti,
    {
        let t = &snap.tracks[ti];
        let ghost base = scan_hits(tracks.take(ti as int));
        proof {
            assert(tracks.take(ti as int + 1).drop_last() =~= tracks.take(ti as int));
            assert(tracks[ti as int].fx@.len() <= i32::MAX);
        }
        let mut j: usize = 0;
        while j < t.fx.len()
            invariant
                tracks == snap.tracks@,
                ti < tracks.len(),
                *t == tracks[ti as int],
                t.fx@.len() <= i32::MAX,
                j <= t.fx@.len(),
                base == scan_hits(tracks.take(ti as int)),
                insts@.len() == base.len() + track_hits(*t, ti as int, j as int).len(),
                lookup@.len() == insts@.len(),
                forall|k: int| 0 <= k < insts@.len() ==> {
                    let h = #[trigger] (base + track_hits(*t, ti as int, j as int))[k];
                    0 <= h.0 <= ti && 0 <= h.1 < tracks[h.0].fx@.len()
                    && describes(insts@[k], tracks[h.0], h.1) && records(lookup@[k], tracks[h.0], h.1)
                },
            decreases t.fx@.len() - j,
        {
            let ghost prev = base + track_hits(*t, ti as int, j as int);
            let conf = gojira_confidence(t.fx[j].name.as_str());
            if t.guid.is_some() && conf.is_some() && t.fx[j].guid.is_some() {
                let tg = t.guid.clone().unwrap();
                let fg = t.fx[j].guid.clone().unwrap();
                let inst = GojiraInstance {
                    track_guid: tg.clone(),
                    track_name: t.name.clone(),
                    fx_guid: fg.clone(),
                    fx_name: t.fx[j].name.clone(),
                    last_known_fx_index: j as i32,
                    confidence: conf.unwrap(),
                };
                insts.push(inst);
                lookup.push(FxLookupEntry { fx_guid: fg, track_guid: tg, fx_index: j as i32 });
                proof {
                    assert(base + track_hits(*t, ti as int, j as int + 1) =~= prev.push((ti as int, j as int)));
                    assert forall|k: int| 0 <= k < insts@.len() implies {
                        let h = #[trigger] (base + track_hits(*t, ti as int, j as int + 1))[k];
                        0 <= h.0 <= ti && 0 <= h.1 < tracks[h.0].fx@.len()
                        && describes(insts@[k], tracks[h.0], h.1) && records(lookup@[k], tracks[h.0], h.1)
                    } by {
                        if k < prev.len() {
                            assert(prev[k] == (base + track_hits(*t, ti as int, j as int))[k]);
                        }
                    }
                }
            } else {
                proof {
                    assert(base + track_hits(*t, ti as int, j as int + 1) =~= prev);
                }
            }
            j = j + 1;
        }
        proof {
            assert(scan_hits(tracks.take(ti as int + 1)) =~= base + track_hits(*t, ti as int, t.fx@.len() as int));
        }
        ti = ti + 1;
    }
    proof { assert(tracks.take(ti as int) =~= tracks); }
    (insts, lookup)
}

/// Last cache entry for `target`, or -1.
pub open spec fn cache_find(cache: Seq<FxLookupEntry>, target: Seq<char>) -> int
    decreases cache.len(),
{
    if cache.len() == 0 {
        -1
    } else if cache.last().fx_guid@ == target {
        cache.len() - 1
    } else {
        cache_find(cache.drop_last(), target)
    }
}

/// First track whose GUID is `guid`, or -1.
pub open spec fn track_pos(tracks: Seq<TrackInfo>, guid: Seq<char>) -> int
    decreases tracks.len(),
{
    if tracks.len() == 0 {
        -1
    } else {
        let r = track_pos(tracks.drop_last(), guid);
        if r >= 0 { r } else if opt_view(tracks.last().guid) == Some(guid) { tracks.len() - 1 } else { -1 }
    }
}

/// Where `cache` says `target` is, provided the project confirms it: the
/// track with the cached track GUID holds an effect with GUID `target` at the
/// cached slot.
pub open spec fn located(snap: ProjectSnapshot, cache: Seq<FxLookupEntry>, target: Seq<char>) -> Option<(int, int)> {
    let e = cache_find(cache, target);
    if e < 0 {
        None
    } else {
        let t = track_pos(snap.tracks@, cache[e].track_guid@);
        let f = cache[e].fx_index as int;
        if t >= 0 && 0 <= f < snap.tracks@[t].fx@.len() && opt_view(snap.tracks@[t].fx@[f].guid) == Some(target) {
            Some((t, f))
        } else {
            None
        }
    }
}

proof fn lemma_track_pos(tracks: Seq<TrackInfo>, guid: Seq<char>, m: int)
    requires
        0 <= m <= tracks.len(),
        track_pos(tracks.take(m), guid) >= 0,
    ensures
        track_pos(tracks, guid) == track_pos(tracks.take(m), guid),
        track_pos(tracks, guid) < m,
    decreases tracks.len() - m,
{
    if m < tracks.len() {
        assert(tracks.take(m + 1).drop_last() =~= tracks.take(m));
        lemma_track_pos_bound(tracks.take(m), guid);
        lemma_track_pos(tracks, guid, m + 1);
    } else {
        assert(tracks.take(m) =~= tracks);
        lemma_track_pos_bound(tracks, guid);
    }
}

proof fn lemma_track_pos_bound(tracks: Seq<TrackInfo>, guid: Seq<char>)
    ensures
        track_pos(tracks, guid) < tracks.len(),
    decreases tracks.len(),
{
    if tracks.len() > 0 {
        lemma_track_pos_bound(tracks.drop_last(), guid);
    }
}

fn opt_eq(o: &Option<String>, g: &Vec<char>) -> (r: bool)
    ensures
        r == (opt_view(*o) == Some(g@)),
{
    match o {
        Some(s) => seq_eq(&chars_of(s.as_str()), g),
        None => false,
    }
}

/// Position of the first track of the current project with GUID `track_guid`.
pub fn find_track_by_guid(snap: &ProjectSnapshot, track_guid: &str) -> (r: Option<usize>)
    ensures
        r matches Some(t) ==> track_pos(snap.tracks@, track_guid@) == t as int && t < snap.tracks@.len(),
        r is None ==> track_pos(snap.tracks@, track_guid@) == -1,
{
    let g = chars_of(track_guid);
    let mut i: usize = 0;
    assert(snap.tracks@.take(0) =~= Seq::<TrackInfo>::empty());
    while i < snap.tracks.len()
        invariant
            i <= snap.tracks@.len(),
            g@ == track_guid@,
            track_pos(snap.tracks@.take(i as int), track_guid@) == -1,
        decreases snap.tracks@.len() - i,
    {
        proof { assert(snap.tracks@.take(i as int + 1).drop_last() =~= snap.tracks@.take(i as int)); }
        if opt_eq(&snap.tracks[i].guid, &g) {
            proof { lemma_track_pos(snap.tracks@, track_guid@, i as int + 1); }
            return Some(i);
        }
        i = i + 1;
    }
    proof { assert(snap.tracks@.take(i as int) =~= snap.tracks@); }
    None
}

fn cache_find_exec(cache: &Vec<FxLookupEntry>, target: &Vec<char>) -> (r: Option<usize>)
    ensures
        r matches Some(e) ==> cache_find(cache@, target@) == e as int && e < cache@.len(),
        r is None ==> cache_find(cache@, target@) == -1,
{
    let mut k: usize = cache.len();
    assert(cache@.take(k as int) =~= cache@);
    while k > 0
        invariant
            k <= cache@.len(),
            cache_find(cache@, target@) == cache_find(cache@.take(k as int), target@),
        decreases k,
    {
        proof { assert(cache@.take(k as int).drop_last() =~= cache@.take(k as int - 1)); }
        if seq_eq(&chars_of(cache[k - 1].fx_guid.as_str()), target) {
            return Some(k - 1);
        }
        k = k - 1;
    }
    None
}

fn locate(snap: &ProjectSnapshot, cache: &Vec<FxLookupEntry>, target: &Vec<char>) -> (r: Option<(usize, i32)>)
    ensures
        r matches Some(p) ==> located(*snap, cache@, target@) == Some((p.0 as int, p.1 as int)),
        r is None ==> located(*snap, cache@, target@) is None,
{
    let e = match cache_find_exec(cache, target) {
        Some(e) => e,
        None => { return None; }
    };
    let t = match find_track_by_guid(snap, cache[e].track_guid.as_str()) {
        Some(t) => t,
        None => { return None; }
    };
    let f = cache[e].fx_index;
    if f < 0 || f as usize >= snap.tracks[t].fx.len() {
        return None;
    }
    if opt_eq(&snap.tracks[t].fx[f as usize].guid, target) {
        Some((t, f))
    } else {
        None
    }
}

/// Finds `target_fx_guid` in the current project: first through the cache,
/// confirmed against the project; failing that, the cache is rebuilt by a
/// fresh scan and tried once more.
pub fn resolve_fx(snap: &ProjectSnapshot, cache: &mut Vec<FxLookupEntry>, target_fx_guid: &str) -> (r: Result<(usize, i32), ResolveError>)
    requires
        slots_fit(*snap),
    ensures
        located(*snap, old(cache)@, target_fx_guid@) is Some ==> final(cache)@ == old(cache)@,
        located(*snap, old(cache)@, target_fx_guid@) is None ==> {
            &&& final(cache)@.len() == scan_hits(snap.tracks@).len()
            &&& forall|k: int| 0 <= k < final(cache)@.len() ==> {
                let h = #[trigger] scan_hits(snap.tracks@)[k];
                records(final(cache)@[k], snap.tracks@[h.0], h.1)
            }
        },
        r matches Ok(p) ==> located(*snap, final(cache)@, target_fx_guid@) == Some((p.0 as int, p.1 as int)),
        r is Err ==> located(*snap, final(cache)@, target_fx_guid@) is None,
{
    let target = chars_of(target_fx_guid);
    match locate(snap, cache, &target) {
        Some(p) => { return Ok(p); }
        None => {}
    }
    let (_instances, fresh) = scan_project_instances(snap);
    *cache = fresh;
    match locate(snap, cache, &target) {
        Some(p) => Ok(p),
        None => Err(ResolveError::TargetNotFound),
    }
}

/// Number of effects over `tracks`.
pub open spec fn fx_total(tracks: Seq<TrackInfo>) -> int
    decreases tracks.len(),
{
    if tracks.len() == 0 { 0 } else { fx_total(tracks.drop_last()) + tracks.last().fx@.len() }
}

/// Number of effects over all tracks of the project, saturating at `i32::MAX`.
pub fn total_fx_count(snap: &ProjectSnapshot) -> (r: i32)
    ensures
        r == (if fx_total(snap.tracks@) > i32::MAX { i32::MAX as int } else { fx_total(snap.tracks@) }),
{
    let mut sum: i64 = 0;
    let mut i: usize = 0;
    assert(snap.tracks@.take(0) =~= Seq::<TrackInfo>::empty());
    while i < snap.tracks.len()
        invariant
            i <= snap.tracks@.len(),
            sum == (if fx_total(snap.tracks@.take(i as int)) > i32::MAX { i32::MAX as int + 1 } else { fx_total(snap.tracks@.take(i as int)) }),
        decreases snap.tracks@.len() - i,
    {
        proof {
            assert(snap.tracks@.take(i as int + 1).drop_last() =~= snap.tracks@.take(i as int));
            lemma_fx_total_nonneg(snap.tracks@.take(i as int));
        }
        let n = snap.tracks[i].fx.len();
        if sum <= i32::MAX as i64 {
            if n as u64 > (i32::MAX as u64) + 1 {
                sum = i32::MAX as i64 + 1;
            } else {
                sum = sum + n as i64;
                if sum > i32::MAX as i64 {
                    sum = i32::MAX as i64 + 1;
                }
            }
        }
        i = i + 1;
    }
    proof {
        assert(snap.tracks@.take(i as int) =~= snap.tracks@);
        lemma_fx_total_nonneg(snap.tracks@);
    }
    if sum > i32::MAX as i64 { i32::MAX } else { sum as i32 }
}

proof fn lemma_fx_total_nonneg(tracks: Seq<TrackInfo>)
    ensures
        fx_total(tracks) >= 0,
    decreases tracks.len(),
{
    if tracks.len() > 0 {
        lemma_fx_total_nonneg(tracks.drop_last());
    }
}

} // verus!
