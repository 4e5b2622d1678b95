use gojira_bridge::protocol::{ClientCommand, ErrorCode, MergeMode, ParamChange};
use gojira_bridge::resolver::{FxInfo, ProjectSnapshot, TrackInfo};
use gojira_bridge::session::{admit_command, applied_params, mint_session_token, decimal_string, finish_set_tone, Admission, InboundMsg, MainLoop, NetSession, Watchdog, CommandError};
use gojira_bridge::protocol::{ServerMessage, GojiraInstance, Confidence};

fn set_tone(token: &str, id: &str) -> ClientCommand {
    ClientCommand::SetTone {
        session_token: token.to_string(),
        command_id: id.to_string(),
        target_fx_guid: "{F}".to_string(),
        mode: MergeMode::Merge,
        params: vec![ParamChange { index: 30, value: 420_000 }],
    }
}

#[test]
fn wrong_token_is_unauthorized() {
    let active = "abc".to_string();
    let cmd = ClientCommand::RefreshInstances { session_token: "WRONG".to_string() };
    assert_eq!(admit_command(&active, &cmd, true), Admission::Reply(ErrorCode::Unauthorized));
    assert_eq!(admit_command(&active, &set_tone("WRONG", "x"), false), Admission::Reply(ErrorCode::Unauthorized));
}

#[test]
fn backpressure_policy() {
    let active = "abc".to_string();
    let refresh = ClientCommand::RefreshInstances { session_token: "abc".to_string() };
    assert_eq!(admit_command(&active, &refresh, true), Admission::Forward);
    assert_eq!(admit_command(&active, &refresh, false), Admission::Drop);
    assert_eq!(admit_command(&active, &set_tone("abc", "t"), false), Admission::Reply(ErrorCode::Busy));
}

#[test]
fn tokens_are_32_alphanumerics() {
    let a = mint_session_token();
    let b = mint_session_token();
    assert_eq!(a.chars().count(), 32);
    assert!(a.chars().all(|c| c.is_ascii_alphanumeric()));
    assert_ne!(a, b);
}

#[test]
fn project_change_is_debounced() {
    let mut w = Watchdog::new();
    let mut emitted = 0;
    for i in 1..=10 {
        if w.observe(i, i, i, 1000 + (i as u64) * 10) {
            emitted += 1;
        }
    }
    assert_eq!(emitted, 1);
    assert!(w.observe(11, 11, 11, 1000 + 10 + 500));
}

#[test]
fn unchanged_counter_emits_nothing() {
    let mut w = Watchdog::new();
    assert!(!w.observe(0, 5, 5, 0));
    assert!(w.observe(1, 5, 5, 0));
    // counter moved but nothing structural changed
    assert!(!w.observe(2, 5, 5, 10_000));
}

#[test]
fn drain_keeps_newest_set_tone() {
    let mut st = MainLoop::new();
    let msgs = vec![
        InboundMsg::ClientConnected { session_token: "tok".to_string() },
        InboundMsg::Command { cmd: set_tone("tok", "a") },
        InboundMsg::Command { cmd: ClientCommand::RefreshInstances { session_token: "tok".to_string() } },
        InboundMsg::Command { cmd: set_tone("tok", "b") },
    ];
    let plan = st.drain_inbound(msgs);
    assert_eq!(plan.connected_token, Some("tok".to_string()));
    assert!(plan.refresh);
    match plan.set_tone {
        Some(ClientCommand::SetTone { command_id, .. }) => assert_eq!(command_id, "b"),
        other => panic!("unexpected {:?}", other),
    }
}

#[test]
fn disconnect_ends_session() {
    let mut st = MainLoop::new();
    st.active_session_token = Some("tok".to_string());
    st.validation_ready = true;
    let plan = st.drain_inbound(vec![InboundMsg::ClientDisconnected]);
    assert!(st.active_session_token.is_none());
    assert!(!st.validation_ready);
    assert!(plan.set_tone.is_none());
    assert!(st.cache.lookup.is_empty());
}

fn one_instance() -> ProjectSnapshot {
    ProjectSnapshot {
        tracks: vec![TrackInfo {
            guid: Some("{T}".to_string()),
            name: "Gtr".to_string(),
            fx: vec![FxInfo { name: "Archetype Gojira".to_string(), guid: Some("{F}".to_string()) }],
        }],
    }
}

#[test]
fn set_tone_before_probe_is_not_ready() {
    let mut st = MainLoop::new();
    let r = st.plan_set_tone(&one_instance(), "{F}", MergeMode::Merge, vec![ParamChange { index: 30, value: 420_000 }]);
    assert_eq!(r.unwrap_err(), CommandError { code: ErrorCode::NotReady, index: None });
}

#[test]
fn set_tone_plans_writes() {
    let mut st = MainLoop::new();
    st.validation_ready = true;
    let plan = st
        .plan_set_tone(&one_instance(), "{F}", MergeMode::Merge, vec![ParamChange { index: 30, value: 420_000 }])
        .unwrap();
    assert_eq!((plan.track, plan.fx_index), (0, 0));
    assert_eq!(plan.writes, vec![ParamChange { index: 30, value: 420_000 }]);
    let bad = st.plan_set_tone(&one_instance(), "{F}", MergeMode::Merge, vec![ParamChange { index: 5000, value: 1 }]);
    assert_eq!(bad.unwrap_err(), CommandError { code: ErrorCode::InvalidValue, index: Some(5000) });
    let missing = st.plan_set_tone(&one_instance(), "{Z}", MergeMode::Merge, vec![]);
    assert_eq!(missing.unwrap_err(), CommandError { code: ErrorCode::TargetNotFound, index: None });
}

#[test]
fn watchdog_fire_drops_cache() {
    let mut st = MainLoop::new();
    st.on_connected("tok".to_string());
    st.on_probed(vec![], true);
    assert!(st.validation_ready);
    assert!(st.watchdog_tick(3, 1, 1, 0));
    assert!(!st.validation_ready);
    assert!(!st.watchdog_tick(4, 2, 2, 100));
}

#[test]
fn set_tone_waits_for_handshake_ack() {
    let mut st = MainLoop::new();
    st.on_connected("tok".to_string());
    assert!(st.gate_set_tone(false, Some(set_tone("tok", "a"))).is_none());
    assert!(st.gate_set_tone(false, Some(set_tone("tok", "b"))).is_none());
    match st.gate_set_tone(true, None) {
        Some(ClientCommand::SetTone { command_id, .. }) => assert_eq!(command_id, "b"),
        other => panic!("unexpected {:?}", other),
    }
    assert!(st.deferred_set_tone.is_none());
    assert!(st.gate_set_tone(false, None).is_none());
}

#[test]
fn drain_reports_handshake_ack() {
    let mut st = MainLoop::new();
    let plan = st.drain_inbound(vec![InboundMsg::Command {
        cmd: ClientCommand::HandshakeAck { session_token: "tok".to_string() },
    }]);
    assert!(plan.handshake_ack);
    assert!(!plan.refresh);
}

#[test]
fn ack_echoes_requested_and_applied() {
    let requested = vec![ParamChange { index: 30, value: 420_000 }, ParamChange { index: 31, value: 1_500_000 }];
    let applied = vec![ParamChange { index: 30, value: 420_000 }, ParamChange { index: 31, value: 1_000_000 }];
    let formatted = vec!["0.420".to_string(), "1.000".to_string()];
    let a = applied_params(&requested, &applied, formatted);
    assert_eq!(a.len(), 2);
    assert_eq!((a[0].index, a[0].requested, a[0].applied, a[0].formatted.as_str()), (30, 420_000, 420_000, "0.420"));
    assert_eq!((a[1].requested, a[1].applied), (1_500_000, 1_000_000));
}

#[test]
fn token_injection() {
    let cmd = set_tone("old", "x").inject_token("new");
    assert_eq!(cmd.session_token(), "new");
    match cmd {
        ClientCommand::SetTone { command_id, .. } => assert_eq!(command_id, "x"),
        other => panic!("unexpected {:?}", other),
    }
}

#[test]
fn new_client_replaces_old_session() {
    let mut net = NetSession::new();
    assert!(!net.begin_accept());
    assert_eq!(net.finish_accept("first".to_string(), true), None);
    let old_cmd = ClientCommand::RefreshInstances { session_token: "first".to_string() };
    assert_eq!(net.decide_command(&old_cmd, true), Admission::Forward);
    assert!(net.begin_accept());
    assert_eq!(net.finish_accept("second".to_string(), true), None);
    assert_eq!(net.decide_command(&old_cmd, true), Admission::Reply(ErrorCode::Unauthorized));
    assert!(net.begin_accept());
    assert_eq!(net.finish_accept("third".to_string(), false), Some(ErrorCode::Busy));
    assert_eq!(net.decide_command(&old_cmd, true), Admission::Drop);
}

#[test]
fn tick_announces_newest_connection() {
    let mut st = MainLoop::new();
    let start = st.begin_tick(vec![
        InboundMsg::ClientConnected { session_token: "t1".to_string() },
        InboundMsg::Command { cmd: set_tone("t1", "early") },
        InboundMsg::ClientConnected { session_token: "t2".to_string() },
    ]);
    assert_eq!(start.handshake_for, Some("t2".to_string()));
    assert_eq!(st.active_session_token, Some("t2".to_string()));
    // no acknowledgement yet: the set-tone waits
    assert!(start.set_tone.is_none());
    let inst = GojiraInstance {
        track_guid: "{T}".to_string(),
        track_name: "Gtr".to_string(),
        fx_guid: "{F}".to_string(),
        fx_name: "Archetype Gojira".to_string(),
        last_known_fx_index: 0,
        confidence: Confidence::High,
    };
    let report = vec![gojira_bridge::protocol::ReportEntry { key: "delay_active_101".to_string(), value: "present".to_string() }];
    match st.complete_handshake("t2".to_string(), vec![inst], vec![], report, vec![], vec![], vec![]) {
        ServerMessage::Handshake { session_token, instances, .. } => {
            assert_eq!(session_token, "t2");
            assert_eq!(instances.len(), 1);
        }
        other => panic!("unexpected {:?}", other),
    }
    assert!(st.validation_ready);
    let next = st.begin_tick(vec![InboundMsg::Command { cmd: ClientCommand::HandshakeAck { session_token: "t2".to_string() } }]);
    assert!(next.handshake_for.is_none());
    match next.set_tone {
        Some(ClientCommand::SetTone { command_id, .. }) => assert_eq!(command_id, "early"),
        other => panic!("unexpected {:?}", other),
    }
}

#[test]
fn refresh_rehandshakes_current_session() {
    let mut st = MainLoop::new();
    st.on_connected("tok".to_string());
    let start = st.begin_tick(vec![InboundMsg::Command { cmd: ClientCommand::RefreshInstances { session_token: "tok".to_string() } }]);
    assert_eq!(start.handshake_for, Some("tok".to_string()));
}

#[test]
fn set_tone_outcomes() {
    let mut st = MainLoop::new();
    st.validation_ready = true;
    let plan = st
        .plan_set_tone(&one_instance(), "{F}", MergeMode::ReplaceActive, vec![ParamChange { index: 30, value: 1_420_000 }])
        .unwrap();
    assert_eq!(plan.applied, vec![ParamChange { index: 30, value: 1_000_000 }]);
    assert!(plan.writes.len() > 1);
    match finish_set_tone("t1".to_string(), &plan, None, vec!["1.000".to_string()]) {
        ServerMessage::Ack { command_id, applied_params } => {
            assert_eq!(command_id, "t1");
            assert_eq!(applied_params.len(), 1);
            assert_eq!((applied_params[0].index, applied_params[0].requested, applied_params[0].applied), (30, 1_420_000, 1_000_000));
        }
        other => panic!("unexpected {:?}", other),
    }
    let failed_index = plan.writes[1].index;
    match finish_set_tone("t1".to_string(), &plan, Some(1), vec!["1.000".to_string()]) {
        ServerMessage::Error { msg, code } => {
            assert_eq!(code, ErrorCode::InternalError);
            assert_eq!(msg, format!("apply failed at param {failed_index}"));
        }
        other => panic!("unexpected {:?}", other),
    }
}

#[test]
fn decimal_text() {
    assert_eq!(decimal_string(0), "0");
    assert_eq!(decimal_string(4096), "4096");
    assert_eq!(decimal_string(-17), "-17");
    assert_eq!(decimal_string(i32::MIN), "-2147483648");
}

#[test]
fn main_loop_watchdog_debounce() {
    let mut st = MainLoop::new();
    st.on_connected("tok".to_string());
    st.on_probed(vec![], true);
    let mut emitted = 0;
    for i in 1..=10 {
        if st.watchdog_tick(i, i, i, 5_000 + (i as u64) * 10) {
            emitted += 1;
        }
    }
    assert_eq!(emitted, 1);
    assert!(!st.validation_ready);
    assert!(st.cache.lookup.is_empty());
    assert!(st.watchdog_tick(11, 11, 11, 5_010 + 500));
}
