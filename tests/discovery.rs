use gojira_bridge::probe::{anchor_status, mix_status, AnchorStatus};
use gojira_bridge::probe::{probe_enum, probe_format_triplet, sample_norms, sample_point};
use gojira_bridge::protocol::Confidence;
use gojira_bridge::resolver::{
    find_track_by_guid, gojira_confidence, normalize, resolve_fx, scan_project_instances, FxInfo,
    ProjectSnapshot, ResolveError, TrackInfo,
};

fn fx(name: &str, guid: &str) -> FxInfo {
    FxInfo { name: name.to_string(), guid: Some(guid.to_string()) }
}

fn project() -> ProjectSnapshot {
    ProjectSnapshot {
        tracks: vec![
            TrackInfo { guid: Some("{T}".to_string()), name: "Guitar".to_string(), fx: vec![fx("VST3: Archetype Gojira (Neural DSP)", "{F}")] },
            TrackInfo {
                guid: Some("{U}".to_string()),
                name: "Bass".to_string(),
                fx: vec![fx("ReaEQ", "{E}"), fx("Gojira X", "{G}")],
            },
            TrackInfo { guid: None, name: "Ghost".to_string(), fx: vec![fx("Gojira", "{H}")] },
        ],
    }
}

#[test]
fn normalize_keeps_lowercase_alphanumerics() {
    assert_eq!(normalize("VST3: Archetype-Gojira (Neural DSP)"), "vst3archetypegojiraneuraldsp");
    assert_eq!(normalize(""), "");
}

#[test]
fn confidence_levels() {
    assert_eq!(gojira_confidence("Archetype: Gojira"), Some(Confidence::High));
    assert_eq!(gojira_confidence("GOJIRA clone"), Some(Confidence::Low));
    assert_eq!(gojira_confidence("Archetype Plini"), None);
}

#[test]
fn scan_finds_instances_in_order() {
    let (inst, lookup) = scan_project_instances(&project());
    assert_eq!(inst.len(), 2);
    assert_eq!(inst[0].fx_guid, "{F}");
    assert_eq!(inst[0].track_guid, "{T}");
    assert_eq!(inst[0].confidence, Confidence::High);
    assert_eq!(inst[0].last_known_fx_index, 0);
    assert_eq!(inst[1].fx_guid, "{G}");
    assert_eq!(inst[1].confidence, Confidence::Low);
    assert_eq!(inst[1].last_known_fx_index, 1);
    assert_eq!(lookup.len(), 2);
    assert_eq!(lookup[1].track_guid, "{U}");
}

#[test]
fn resolve_uses_cache_then_rescans() {
    let p = project();
    let mut cache = Vec::new();
    assert_eq!(resolve_fx(&p, &mut cache, "{G}"), Ok((1, 1)));
    assert_eq!(cache.len(), 2);
    // the slot moved: the stale cache entry is re-verified and the scan finds the new slot
    let mut moved = p.clone();
    moved.tracks[1].fx.remove(0);
    assert_eq!(resolve_fx(&moved, &mut cache, "{G}"), Ok((1, 0)));
    assert_eq!(resolve_fx(&moved, &mut cache, "{nope}"), Err(ResolveError::TargetNotFound));
}

#[test]
fn find_track() {
    assert_eq!(find_track_by_guid(&project(), "{U}"), Some(1));
    assert_eq!(find_track_by_guid(&project(), "{X}"), None);
}

#[test]
fn enum_probe_midpoints() {
    let labels: Vec<String> = ["A", "A", "B", "B", "B"].iter().map(|s| s.to_string()).collect();
    let opts = probe_enum(&labels, 4, 8);
    assert_eq!(opts.len(), 2);
    assert_eq!((opts[0].label.as_str(), opts[0].value), ("A", 0));
    assert_eq!((opts[1].label.as_str(), opts[1].value), ("B", 750_000));
}

#[test]
fn enum_probe_value_shows_its_label() {
    let labels: Vec<String> =
        ["Cab 1", "Cab 1", "Cab 1", "", "Cab 2", "Cab 2", "Cab 1", "Cab 3", "Cab 3"].iter().map(|s| s.to_string()).collect();
    let n = 8u32;
    let opts = probe_enum(&labels, n, 2);
    assert_eq!(opts.len(), 2);
    for o in &opts {
        let k = (0..=n).find(|&s| sample_point(s, n) == o.value).unwrap();
        assert_eq!(labels[k as usize], o.label);
    }
    assert_eq!(opts[0].value, 125_000);
    assert_eq!(opts[1].value, 500_000);
}

#[test]
fn sample_points_are_even() {
    let v = sample_norms(11);
    assert_eq!(v.len(), 11);
    assert_eq!(v[0], 0);
    assert_eq!(v[5], 500_000);
    assert_eq!(v[10], 1_000_000);
    assert_eq!(sample_norms(1).len(), 3);
    assert_eq!(sample_norms(1000).len(), 201);
}

#[test]
fn triplet_probe() {
    assert!(probe_format_triplet(" ", "", "\t").is_none());
    let t = probe_format_triplet(" -24.0 dB", "0.0 dB ", "24.0 dB").unwrap();
    assert_eq!((t.min.as_str(), t.mid.as_str(), t.max.as_str()), ("-24.0 dB", "0.0 dB", "24.0 dB"));
}

#[test]
fn probe_target_lists() {
    let e = gojira_bridge::probe::enum_probe_targets();
    assert_eq!(e.len(), 5);
    assert_eq!((e[1].index, e[1].samples, e[1].max_options), (92, 2048, 512));
    let f = gojira_bridge::probe::format_probe_indices();
    assert_eq!(f.len(), 3 + 22 + 29 + 6 + 3 + 4);
    assert_eq!(f[0], 0);
    assert_eq!(*f.last().unwrap(), 117);
    let s = gojira_bridge::probe::sample_probe_indices(false, 0);
    assert!(s.contains(&29) && s.contains(&113) && !s.contains(&86));
    assert_eq!(gojira_bridge::probe::sample_probe_indices(true, 5), vec![0, 1, 2, 3, 4]);
}

#[test]
fn sample_table_keeps_nonempty_displays() {
    let norms = vec![0, 500_000, 1_000_000];
    let shown: Vec<String> = [" -6.0 dB", "  ", "0.0 dB"].iter().map(|s| s.to_string()).collect();
    let t = gojira_bridge::probe::sample_table(7, &norms, &shown).unwrap();
    assert_eq!(t.index, 7);
    let got: Vec<(i64, &str)> = t.samples.iter().map(|s| (s.norm, s.formatted.as_str())).collect();
    assert_eq!(got, vec![(0, "-6.0 dB"), (1_000_000, "0.0 dB")]);
    let empty: Vec<String> = vec![String::new(), " ".to_string()];
    assert!(gojira_bridge::probe::sample_table(7, &vec![0, 1], &empty).is_none());
}

#[test]
fn fx_totals() {
    assert_eq!(gojira_bridge::resolver::total_fx_count(&project()), 4);
    assert_eq!(gojira_bridge::resolver::total_fx_count(&ProjectSnapshot { tracks: vec![] }), 0);
}

#[test]
fn anchor_and_mix_checks() {
    assert_eq!(anchor_status(Some("DLY Active")), AnchorStatus::Present);
    assert_eq!(anchor_status(Some("Delay Time")), AnchorStatus::Suspicious);
    assert_eq!(anchor_status(None), AnchorStatus::Missing);
    assert_eq!(mix_status(Some("REV Dry/Wet")), AnchorStatus::Present);
    assert_eq!(mix_status(Some("REV Mix")), AnchorStatus::Present);
    assert_eq!(mix_status(Some("REV Decay")), AnchorStatus::Suspicious);
}

#[test]
fn enum_probe_values_increase() {
    let labels: Vec<String> = ["x", "y", "y", "x", "z"].iter().map(|s| s.to_string()).collect();
    let opts = probe_enum(&labels, 4, 10);
    let vals: Vec<i64> = opts.iter().map(|o| o.value).collect();
    assert_eq!(vals, vec![0, 250_000, 1_000_000]);
}
