use gojira_bridge::protocol::ParamChange;
use gojira_bridge::value_resolver::{
    resolve_ai_params, resolve_value_for_index, AiParamChange, AiValue, EnumTable, ParamEnumOption,
    ParamFormatSample, ParamMeta, ResolveErrorKind, SampleTable, TripletEntry, ParamFormatTriplet,
    extract_prompt_json_line, default_enum_options, default_formatted_value_triplets,
};

fn meta() -> ParamMeta {
    ParamMeta::with_overrides(vec![], vec![], vec![])
}

fn text(index: i32, s: &str) -> AiParamChange {
    AiParamChange { index, value: AiValue::Text(s.to_string()) }
}

fn unit(v: i64) -> f64 {
    v as f64 / 1_000_000.0
}

#[test]
fn gate_db_uses_default_triplet() {
    let params = vec![text(2, "-30 dB")];
    let out = resolve_ai_params(&meta(), params).unwrap();
    let v = unit(out[0].value);
    // (-30 - -96) / (0 - -96) = 66/96 = 0.6875
    assert!((v - 0.6875).abs() < 1e-4, "got {v}");
}

#[test]
fn tempo_bpm_uses_default_triplet() {
    let params = vec![text(108, "120 bpm")];
    let out = resolve_ai_params(&meta(), params).unwrap();
    let v = unit(out[0].value);
    // (120-40)/(240-40)=0.4
    assert!((v - 0.4).abs() < 1e-4, "got {v}");
}

#[test]
fn numeric_physical_requires_mapping() {
    let params = vec![AiParamChange { index: 54, value: AiValue::Number(650_000_000) }];
    let err = resolve_ai_params(&meta(), params).unwrap_err();
    assert!(err.message().contains("not a normalized 0..1"), "unexpected err: {:?}", err);
    assert_eq!(err.kind, ResolveErrorKind::NotNormalized);
    assert_eq!(err.index, 54);
}

#[test]
fn pan_accepts_minus_one_to_one() {
    let params = vec![AiParamChange { index: 90, value: AiValue::Number(-500_000) }];
    let out = resolve_ai_params(&meta(), params).unwrap();
    let v = unit(out[0].value);
    assert!((v - 0.25).abs() < 1e-6, "got {v}");
}

#[test]
fn hz_strings_use_default_triplet() {
    let params = vec![text(116, "150 Hz")];
    let out = resolve_ai_params(&meta(), params).unwrap();
    let v = unit(out[0].value);
    // (150-50)/(700-50)=100/650
    assert!((v - (100.0 / 650.0)).abs() < 1e-4, "got {v}");
}

#[test]
fn gate_db_exact_fixed_point() {
    let out = resolve_ai_params(&meta(), vec![text(2, "-30 dB")]).unwrap();
    assert_eq!(out[0].value, 687_500);
    assert_eq!(out[0].index, 2);
}

#[test]
fn output_has_one_change_per_input() {
    let params = vec![
        text(13, "on"),
        AiParamChange { index: 14, value: AiValue::Number(800_000) },
        text(105, "25%"),
        text(84, "cab 3"),
        text(29, "The Crunch"),
    ];
    let out = resolve_ai_params(&meta(), params).unwrap();
    assert_eq!(out.len(), 5);
    let got: Vec<(i32, i64)> = out.iter().map(|p| (p.index, p.value)).collect();
    assert_eq!(got, vec![(13, 1_000_000), (14, 800_000), (105, 250_000), (84, 875_000), (29, 500_000)]);
}

#[test]
fn numeric_text_is_a_number() {
    let v = resolve_value_for_index(&meta(), 40, &AiValue::Text(" 0.5 ".to_string())).unwrap();
    assert_eq!(v, 500_000);
}

#[test]
fn booleans_and_percent() {
    let m = meta();
    assert_eq!(resolve_value_for_index(&m, 40, &AiValue::Text("Disabled".to_string())), Ok(0));
    assert_eq!(resolve_value_for_index(&m, 40, &AiValue::Text("YES".to_string())), Ok(1_000_000));
    assert_eq!(resolve_value_for_index(&m, 40, &AiValue::Text("150%".to_string())), Ok(1_000_000));
    assert_eq!(resolve_value_for_index(&m, 40, &AiValue::Text("-5%".to_string())), Ok(0));
    assert_eq!(resolve_value_for_index(&m, 40, &AiValue::Text("12.5 %".to_string())), Ok(125_000));
}

#[test]
fn enum_labels_case_insensitive() {
    let m = meta();
    assert_eq!(resolve_value_for_index(&m, 113, &AiValue::Text("shimmer".to_string())), Ok(751_953));
    assert_eq!(resolve_value_for_index(&m, 92, &AiValue::Text("  ribbon   121 ".to_string())), Ok(833_740));
    assert_eq!(resolve_value_for_index(&m, 84, &AiValue::Text("Lead Cab".to_string())), Ok(875_000));
}

#[test]
fn flat_on_eq_band_is_center() {
    let m = meta();
    assert_eq!(resolve_value_for_index(&m, 60, &AiValue::Text("flat".to_string())), Ok(500_000));
    assert_eq!(
        resolve_value_for_index(&m, 40, &AiValue::Text("flat".to_string())),
        Err(ResolveErrorKind::Unresolved)
    );
}

#[test]
fn eq_band_db_fallback() {
    let m = meta();
    assert_eq!(resolve_value_for_index(&m, 60, &AiValue::Text("+6 dB".to_string())), Ok(750_000));
    assert_eq!(resolve_value_for_index(&m, 60, &AiValue::Text("-12db".to_string())), Ok(0));
    assert_eq!(resolve_value_for_index(&m, 60, &AiValue::Text("3,0 dB".to_string())), Ok(625_000));
}

#[test]
fn reverb_time_uses_triplet() {
    let m = meta();
    // (2000 - 250) / (10000 - 250)
    assert_eq!(resolve_value_for_index(&m, 115, &AiValue::Text("2 s".to_string())), Ok(179_487));
    assert_eq!(resolve_value_for_index(&m, 115, &AiValue::Text("2000ms".to_string())), Ok(179_487));
}

#[test]
fn khz_uses_triplet() {
    let m = meta();
    // (5500 - 1000) / 9000
    assert_eq!(resolve_value_for_index(&m, 117, &AiValue::Text("5.5 kHz".to_string())), Ok(500_000));
}

#[test]
fn error_kinds() {
    let m = meta();
    assert_eq!(resolve_value_for_index(&m, 40, &AiValue::Other), Err(ResolveErrorKind::UnsupportedType));
    assert_eq!(resolve_value_for_index(&m, 40, &AiValue::Text("   ".to_string())), Err(ResolveErrorKind::EmptyString));
    assert_eq!(resolve_value_for_index(&m, 40, &AiValue::Text("300 ms".to_string())), Err(ResolveErrorKind::TimeUnmapped));
    assert_eq!(resolve_value_for_index(&m, 40, &AiValue::Text("300 Hz".to_string())), Err(ResolveErrorKind::HzUnmapped));
    assert_eq!(resolve_value_for_index(&m, 40, &AiValue::Text("90 bpm".to_string())), Err(ResolveErrorKind::BpmUnmapped));
    assert_eq!(resolve_value_for_index(&m, 40, &AiValue::Text("bright".to_string())), Err(ResolveErrorKind::Unresolved));
    assert_eq!(resolve_value_for_index(&m, 40, &AiValue::Number(2_000_000)), Err(ResolveErrorKind::NotNormalized));
}

#[test]
fn first_failure_is_reported() {
    let params = vec![text(13, "on"), text(40, "bright"), AiParamChange { index: 41, value: AiValue::Other }];
    let err = resolve_ai_params(&meta(), params).unwrap_err();
    assert_eq!(err.index, 40);
    assert_eq!(err.kind, ResolveErrorKind::Unresolved);
    assert_eq!(err.message(), "could not resolve string value");
}

fn samples(index: i32, pts: &[(i64, &str)]) -> SampleTable {
    SampleTable {
        index,
        samples: pts.iter().map(|(n, f)| ParamFormatSample { norm: *n, formatted: f.to_string() }).collect(),
    }
}

#[test]
fn samples_take_precedence_in_db() {
    let s = samples(60, &[(0, "-20.0 dB"), (500_000, "0.0 dB"), (1_000_000, "20.0 dB")]);
    let m = ParamMeta::with_overrides(vec![], vec![], vec![s]);
    assert_eq!(resolve_value_for_index(&m, 60, &AiValue::Text("-10 dB".to_string())), Ok(250_000));
    assert_eq!(resolve_value_for_index(&m, 60, &AiValue::Text("40 dB".to_string())), Ok(1_000_000));
}

#[test]
fn sampled_display_resolves_to_its_sample() {
    let s = samples(
        106,
        &[(0, "10 ms"), (250_000, "40 ms"), (500_000, "160 ms"), (750_000, "640 ms"), (1_000_000, "2.5 s")],
    );
    let m = ParamMeta::with_overrides(vec![], vec![], vec![s]);
    for (norm, f) in [(0, "10 ms"), (250_000, "40 ms"), (500_000, "160 ms"), (750_000, "640 ms"), (1_000_000, "2.5 s")] {
        assert_eq!(resolve_value_for_index(&m, 106, &AiValue::Text(f.to_string())), Ok(norm), "{f}");
    }
    // between two samples: linear interpolation
    assert_eq!(resolve_value_for_index(&m, 106, &AiValue::Text("100 ms".to_string())), Ok(375_000));
}

#[test]
fn numeric_physical_inverted_through_samples() {
    let s = samples(33, &[(0, "1.0"), (1_000_000, "11.0")]);
    let m = ParamMeta::with_overrides(vec![], vec![], vec![s]);
    assert_eq!(resolve_value_for_index(&m, 33, &AiValue::Number(6_000_000)), Ok(500_000));
}

#[test]
fn prompt_overrides_defaults() {
    let e = EnumTable {
        index: 113,
        options: vec![ParamEnumOption { value: 100_000, label: "Hall".to_string() }],
    };
    let t = TripletEntry {
        index: 2,
        triplet: ParamFormatTriplet { min: "-80".to_string(), mid: "-40".to_string(), max: "0".to_string() },
    };
    let m = ParamMeta::with_overrides(vec![e], vec![t], vec![]);
    assert_eq!(resolve_value_for_index(&m, 113, &AiValue::Text("hall".to_string())), Ok(100_000));
    assert_eq!(resolve_value_for_index(&m, 113, &AiValue::Text("shimmer".to_string())), Err(ResolveErrorKind::Unresolved));
    assert_eq!(resolve_value_for_index(&m, 2, &AiValue::Text("-20 dB".to_string())), Ok(750_000));
}

#[test]
fn prompt_json_lines() {
    let prompt = "make it heavy\n  ENUM_OPTIONS_JSON=  {\"84\": []}  \r\nFORMATTED_VALUE_TRIPLETS_JSON=\n";
    assert_eq!(extract_prompt_json_line(prompt, "ENUM_OPTIONS_JSON="), Some("{\"84\": []}".to_string()));
    assert_eq!(extract_prompt_json_line(prompt, "FORMATTED_VALUE_TRIPLETS_JSON="), None);
    assert_eq!(extract_prompt_json_line(prompt, "PARAM_FORMAT_SAMPLES_JSON="), None);
}

#[test]
fn defaults_are_present() {
    let e = default_enum_options();
    assert_eq!(e.len(), 5);
    assert_eq!(e[0].options[2].label, "Cab 3");
    let t = default_formatted_value_triplets();
    assert_eq!(t.len(), 7);
    assert_eq!(t[2].triplet.mid, "-48.0");
}

#[test]
fn shimmer_autofix_sets_reverb_mode() {
    let enums = vec![EnumTable {
        index: 113,
        options: vec![
            ParamEnumOption { value: 250_000, label: "Reverb".to_string() },
            ParamEnumOption { value: 750_000, label: " Shimmer ".to_string() },
        ],
    }];
    let mut params = vec![ParamChange { index: 112, value: 1_000_000 }];
    gojira_bridge::value_resolver::apply_prompt_autofixes("Big SHIMMER lead", &enums, &mut params);
    assert_eq!(params, vec![ParamChange { index: 112, value: 1_000_000 }, ParamChange { index: 113, value: 750_000 }]);
    // reverb off: nothing changes
    let mut off = vec![ParamChange { index: 112, value: 0 }];
    gojira_bridge::value_resolver::apply_prompt_autofixes("shimmer", &enums, &mut off);
    assert_eq!(off, vec![ParamChange { index: 112, value: 0 }]);
}

#[test]
fn upsert_updates_first_or_appends() {
    let mut p = vec![ParamChange { index: 1, value: 1 }, ParamChange { index: 1, value: 2 }];
    gojira_bridge::value_resolver::upsert_param(&mut p, 1, 9);
    gojira_bridge::value_resolver::upsert_param(&mut p, 4, 7);
    assert_eq!(p, vec![ParamChange { index: 1, value: 9 }, ParamChange { index: 1, value: 2 }, ParamChange { index: 4, value: 7 }]);
}
