use vstd::prelude::*;
use crate::value_resolver::{EnumTable, TripletEntry, SampleTable};

verus! {

/// Fixed-point scale: a value `v` stands for `v / SCALE`.
pub const SCALE: i64 = 1_000_000;

/// Largest parameter index accepted on the wire.
pub const MAX_PARAM_INDEX: i32 = 4096;

/// One normalized parameter write: `value` is in millionths.
#[derive(Clone, Copy, Debug, PartialEq, Eq, Structural)]
pub struct ParamChange {
    pub index: i32,
    pub value: i64,
}

/// How a proposal is merged with the plugin's current state.
#[derive(Clone, Copy, Debug, PartialEq, Eq, Structural)]
pub enum MergeMode {
    Merge,
    ReplaceActive,
}

/// Error codes carried by server `error` messages.
#[derive(Clone, Copy, Debug, PartialEq, Eq, Structural)]
pub enum ErrorCode {
    Unauthorized,
    Busy,
    TargetNotFound,
    InvalidValue,
    InvalidCommand,
    NotReady,
    InternalError,
}

/// How sure the scanner is that an effect is the target plugin.
#[derive(Clone, Copy, Debug, PartialEq, Eq, Structural)]
pub enum Confidence {
    High,
    Low,
}

/// One discovered instance of the target plugin.
#[derive(Clone, Debug)]
pub struct GojiraInstance {
    pub track_guid: String,
    pub track_name: String,
    pub fx_guid: String,
    pub fx_name: String,
    pub last_known_fx_index: i32,
    pub confidence: Confidence,
}

/// Commands a client sends; each carries the session token.
#[derive(Clone, Debug)]
pub enum ClientCommand {
    HandshakeAck { session_token: String },
    RefreshInstances { session_token: String },
    SetTone {
        session_token: String,
        command_id: String,
        target_fx_guid: String,
        mode: MergeMode,
        params: Vec<ParamChange>,
    },
}

pub open spec fn command_token(c: ClientCommand) -> Seq<char> {
    match c {
        ClientCommand::HandshakeAck { session_token } => session_token@,
        ClientCommand::RefreshInstances { session_token } => session_token@,
        ClientCommand::SetTone { session_token, .. } => session_token@,
    }
}

/// `a` and `b` are the same command: same kind and equal fields.
pub open spec fn same_command(a: ClientCommand, b: ClientCommand) -> bool {
    match (a, b) {
        (ClientCommand::HandshakeAck { session_token: x }, ClientCommand::HandshakeAck { session_token: y }) => x@ == y@,
        (ClientCommand::RefreshInstances { session_token: x }, ClientCommand::RefreshInstances { session_token: y }) => x@ == y@,
        (
            ClientCommand::SetTone { session_token: t1, command_id: c1, target_fx_guid: g1, mode: m1, params: p1 },
            ClientCommand::SetTone { session_token: t2, command_id: c2, target_fx_guid: g2, mode: m2, params: p2 },
        ) => t1@ == t2@ && c1@ == c2@ && g1@ == g2@ && m1 == m2 && p1@ == p2@,
        _ => false,
    }
}

/// A copy of `v`.
pub fn copy_changes(v: &Vec<ParamChange>) -> (r: Vec<ParamChange>)
    ensures
        r@ == v@,
{
    let mut out: Vec<ParamChange> = Vec::new();
    let mut i: usize = 0;
    while i < v.len()
        invariant
            i <= v@.len(),
            out@ == v@.take(i as int),
        decreases v@.len() - i,
    {
        out.push(v[i]);
        proof { assert(out@ =~= v@.take(i as int + 1)); }
        i = i + 1;
    }
    proof { assert(v@.take(i as int) =~= v@); }
    out
}

impl ClientCommand {
    /// The same command carrying `token` as its session token.
    pub fn inject_token(self, token: &str) -> (r: ClientCommand)
        ensures
            command_token(r) == token@,
            r is SetTone <==> self is SetTone,
            r is RefreshInstances <==> self is RefreshInstances,
    {
        let t = token.to_owned();
        match self {
            ClientCommand::HandshakeAck { .. } => ClientCommand::HandshakeAck { session_token: t },
            ClientCommand::RefreshInstances { .. } => ClientCommand::RefreshInstances { session_token: t },
            ClientCommand::SetTone { command_id, target_fx_guid, mode, params, .. } =>
                ClientCommand::SetTone { session_token: t, command_id, target_fx_guid, mode, params },
        }
    }

    /// A copy of the command: same kind, token, target, mode and parameters.
    pub fn duplicate(&self) -> (r: ClientCommand)
        ensures
            same_command(r, *self),
            command_token(r) == command_token(*self),
    {
        match self {
            ClientCommand::HandshakeAck { session_token } => ClientCommand::HandshakeAck { session_token: session_token.clone() },
            ClientCommand::RefreshInstances { session_token } => ClientCommand::RefreshInstances { session_token: session_token.clone() },
            ClientCommand::SetTone { session_token, command_id, target_fx_guid, mode, params } => ClientCommand::SetTone {
                session_token: session_token.clone(),
                command_id: command_id.clone(),
                target_fx_guid: target_fx_guid.clone(),
                mode: *mode,
                params: copy_changes(params),
            },
        }
    }

    /// The session token the command was sent with.
    pub fn session_token(&self) -> (r: &String)
        ensures
            r@ == command_token(*self),
    {
        match self {
            ClientCommand::HandshakeAck { session_token } => session_token,
            ClientCommand::RefreshInstances { session_token } => session_token,
            ClientCommand::SetTone { session_token, .. } => session_token,
        }
    }
}

/// One applied write as echoed in an acknowledgement.
#[derive(Clone, Debug)]
pub struct AppliedParam {
    pub index: i32,
    pub requested: i64,
    pub applied: i64,
    pub formatted: String,
}

/// One entry of the handshake's validation report.
#[derive(Clone, Debug)]
pub struct ReportEntry {
    pub key: String,
    pub value: String,
}

/// Messages the sidecar sends to its client.
#[derive(Clone, Debug)]
pub enum ServerMessage {
    Handshake {
        session_token: String,
        instances: Vec<GojiraInstance>,
        validation_report: Vec<ReportEntry>,
        param_enums: Vec<EnumTable>,
        param_formats: Vec<TripletEntry>,
        param_format_samples: Vec<SampleTable>,
    },
    ProjectChanged,
    Ack { command_id: String, applied_params: Vec<AppliedParam> },
    Error { msg: String, code: ErrorCode },
}

} // verus!
