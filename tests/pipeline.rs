use gojira_bridge::consistency::{module_consistency_warnings, AmpChannel, ConsistencyWarning};
use gojira_bridge::inversion::{eq_db_to_unit, gain_db_to_unit, on_off};
use gojira_bridge::cleaner::{apply_replace_active_cleaner, sanitize_params, SanitizeError};
use gojira_bridge::diff::{diff_params, label_for_index};
use gojira_bridge::protocol::{MergeMode, ParamChange};
use gojira_bridge::remap::{apply_index_remap, reverse_index_remap, lookup_remap, IndexRemapEntry};

fn pc(index: i32, value: i64) -> ParamChange {
    ParamChange { index, value }
}

#[test]
fn sanitize_clamps_and_keeps_last() {
    let out = sanitize_params(vec![pc(2, -300_000), pc(2, 900_000), pc(2, 1_400_000)]).unwrap();
    assert_eq!(out, vec![pc(2, 1_000_000)]);
}

#[test]
fn sanitize_rejects_out_of_range_index() {
    assert_eq!(sanitize_params(vec![pc(5000, 500_000)]), Err(SanitizeError { index: 5000 }));
    assert_eq!(sanitize_params(vec![pc(1, 0), pc(-1, 0), pc(9999, 0)]), Err(SanitizeError { index: -1 }));
    assert!(sanitize_params(vec![pc(4096, 0), pc(0, 0)]).is_ok());
}

#[test]
fn sanitize_keeps_order_of_last_writes() {
    let out = sanitize_params(vec![pc(5, 100), pc(7, 200), pc(5, 300), pc(9, -1)]).unwrap();
    assert_eq!(out, vec![pc(7, 200), pc(5, 300), pc(9, 0)]);
}

#[test]
fn sanitize_is_idempotent_on_example() {
    let once = sanitize_params(vec![pc(3, 2_000_000), pc(1, 10), pc(3, 5)]).unwrap();
    let twice = sanitize_params(once.clone()).unwrap();
    assert_eq!(once, twice);
}

#[test]
fn sanitize_empty() {
    assert_eq!(sanitize_params(vec![]), Ok(vec![]));
}

#[test]
fn merge_mode_leaves_input_alone() {
    let input = vec![pc(14, 800_000)];
    assert_eq!(apply_replace_active_cleaner(MergeMode::Merge, input.clone()), input);
}

#[test]
fn replace_active_toggles_off_untouched_modules() {
    let out = apply_replace_active_cleaner(MergeMode::ReplaceActive, vec![pc(14, 800_000)]);
    assert_eq!(out[0], pc(14, 800_000));
    assert!(out.contains(&pc(13, 1_000_000)));
    for off in [3, 4, 8, 17, 21, 23, 101, 112] {
        assert!(out.contains(&pc(off, 0)), "bypass {off} should be off");
    }
    assert_eq!(out.len(), 10);
}

#[test]
fn replace_active_never_overwrites() {
    let input = vec![pc(13, 0), pc(112, 700_000), pc(60, 400_000)];
    let out = apply_replace_active_cleaner(MergeMode::ReplaceActive, input.clone());
    assert_eq!(&out[..3], &input[..]);
    for p in &out[3..] {
        assert!(input.iter().all(|q| q.index != p.index));
    }
    // the EQ band pulls in the EQ section and the clean-EQ toggle
    assert!(out.contains(&pc(52, 1_000_000)));
    assert!(out.contains(&pc(53, 1_000_000)));
}

#[test]
fn wow_pitch_module_shares_two_bypasses() {
    let only_switch = apply_replace_active_cleaner(MergeMode::ReplaceActive, vec![pc(3, 1_000_000)]);
    assert!(only_switch.contains(&pc(4, 0)));
    let pitch = apply_replace_active_cleaner(MergeMode::ReplaceActive, vec![pc(6, 300_000)]);
    assert!(pitch.contains(&pc(3, 1_000_000)));
    assert!(pitch.contains(&pc(4, 1_000_000)));
}

#[test]
fn cab_section_toggles() {
    let out = apply_replace_active_cleaner(MergeMode::ReplaceActive, vec![pc(95, 500_000)]);
    assert!(out.contains(&pc(83, 1_000_000)));
    assert!(out.contains(&pc(93, 1_000_000)));
    assert!(!out.iter().any(|p| p.index == 86));
}

#[test]
fn remap_rewrites_indices() {
    let remap = vec![IndexRemapEntry { from: 14, to: 140 }, IndexRemapEntry { from: 5, to: 5 }];
    let out = apply_index_remap(vec![pc(14, 1), pc(5, 2), pc(7, 3)], &remap);
    assert_eq!(out, vec![pc(140, 1), pc(5, 2), pc(7, 3)]);
    assert_eq!(lookup_remap(&remap, 5), None);
}

#[test]
fn later_remap_entry_wins() {
    let remap = vec![IndexRemapEntry { from: 1, to: 10 }, IndexRemapEntry { from: 1, to: 20 }];
    assert_eq!(lookup_remap(&remap, 1), Some(20));
    assert_eq!(reverse_index_remap(&remap), vec![IndexRemapEntry { from: 20, to: 1 }]);
}

#[test]
fn labels_follow_reverse_remap() {
    let rev = reverse_index_remap(&vec![IndexRemapEntry { from: 14, to: 200 }]);
    assert_eq!(label_for_index(200, &rev), "Overdrive: Drive");
    assert_eq!(label_for_index(14, &rev), "Overdrive: Drive");
    assert_eq!(label_for_index(999, &rev), "Param");
    assert_eq!(label_for_index(0, &vec![]), "Global: Input Gain");
}

#[test]
fn diff_lists_changed_indices_in_order() {
    let old = vec![pc(14, 500_000), pc(2, 100), pc(7, 1)];
    let new = vec![pc(2, 100), pc(14, 600_000), pc(1, 0)];
    let d = diff_params(&old, &new, &vec![]);
    let got: Vec<(i32, Option<i64>, Option<i64>, String)> =
        d.iter().map(|x| (x.index, x.old_value, x.new_value, x.label.clone())).collect();
    assert_eq!(
        got,
        vec![
            (1, None, Some(0), "Global: Output Gain".to_string()),
            (7, Some(1), None, "Param".to_string()),
            (14, Some(500_000), Some(600_000), "Overdrive: Drive".to_string()),
        ]
    );
}

#[test]
fn diff_of_equal_sets_is_empty() {
    let a = vec![pc(1, 5), pc(2, 6)];
    assert!(diff_params(&a, &a, &vec![]).is_empty());
}

#[test]
fn db_calibration_helpers() {
    assert_eq!(eq_db_to_unit(6_000_000), 750_000);
    assert_eq!(eq_db_to_unit(-12_000_000), 0);
    assert_eq!(eq_db_to_unit(30_000_000), 1_000_000);
    assert_eq!(gain_db_to_unit(-12_000_000), 250_000);
    assert_eq!(on_off(true), 1_000_000);
    assert_eq!(on_off(false), 0);
}

#[test]
fn consistency_warnings() {
    let w = module_consistency_warnings(&vec![pc(14, 1), pc(112, 1), pc(115, 1), pc(29, 500_000), pc(31, 1), pc(40, 1)]);
    assert_eq!(
        w,
        vec![ConsistencyWarning::MissingToggle(13), ConsistencyWarning::OtherChannelsEdited(AmpChannel::Rust)]
    );
    let w2 = module_consistency_warnings(&vec![pc(29, 1_000_000)]);
    assert_eq!(w2, vec![ConsistencyWarning::ChannelUntouched(AmpChannel::Hot)]);
    assert!(module_consistency_warnings(&vec![pc(29, 0), pc(30, 1)]).is_empty());
}
