use vstd::prelude::*;
use vstd::string::StringExecFns;
use crate::protocol::{ClientCommand, ErrorCode, MergeMode, ParamChange, AppliedParam, ServerMessage, GojiraInstance,
    ReportEntry, command_token, same_command, copy_changes};
use crate::value_resolver::{EnumTable, TripletEntry, SampleTable};
use crate::diff::value_at;
use crate::text::{is_alnum, string_of, chars_of, seq_eq};
use crate::cleaner::{sanitize_params, apply_replace_active_cleaner, sanitized, replace_active, SanitizeError};
use crate::resolver::{FxLookupEntry, ProjectSnapshot, resolve_fx, located, slots_fit};
use rand::Rng;

verus! {

/// Length of a session token.
pub const TOKEN_LEN: usize = 32;

/// Relies on rand's `Alphanumeric` distribution, which samples one byte of
/// `A-Z`, `a-z` or `0-9`, drawn from the thread-local generator.
#[verifier::external_body]
fn random_alphanumeric() -> (r: char)
    ensures
        is_alnum(r),
{
    rand::thread_rng().sample(rand::distributions::Alphanumeric) as char
}

/// A fresh random session token of `TOKEN_LEN` ASCII letters and digits.
pub fn mint_session_token() -> (r: String)
    ensures
        r@.len() == TOKEN_LEN,
        forall|i: int| 0 <= i < r@.len() ==> is_alnum(#[trigger] r@[i]),
{
    let mut v: Vec<char> = Vec::new();
    while v.len() < TOKEN_LEN
        invariant
            v@.len() <= TOKEN_LEN,
            forall|i: int| 0 <= i < v@.len() ==> is_alnum(#[trigger] v@[i]),
        decreases TOKEN_LEN - v@.len(),
    {
        v.push(random_alphanumeric());
    }
    string_of(&v)
}

/// What the network side does with a parsed client command.
#[derive(Clone, Copy, Debug, PartialEq, Eq, Structural)]
pub enum Admission {
    /// Queue it for the main loop.
    Forward,
    /// Drop it without a reply.
    Drop,
    /// Answer with an error and drop it.
    Reply(ErrorCode),
}

pub open spec fn is_refresh(c: ClientCommand) -> bool {
    c matches ClientCommand::RefreshInstances { .. }
}

/// A command with any token but the current one is refused as unauthorized;
/// an authorized command is queued when the inbound queue has room; else a
/// refresh is dropped silently and anything else is refused as busy.
pub open spec fn admission(active_token: Seq<char>, cmd: ClientCommand, has_room: bool) -> Admission {
    if command_token(cmd) != active_token {
        Admission::Reply(ErrorCode::Unauthorized)
    } else if has_room {
        Admission::Forward
    } else if is_refresh(cmd) {
        Admission::Drop
    } else {
        Admission::Reply(ErrorCode::Busy)
    }
}

/// Decides what to do with a command from the connected client.
pub fn admit_command(active_token: &String, cmd: &ClientCommand, has_room: bool) -> (r: Admission)
    ensures
        r == admission(active_token@, *cmd, has_room),
{
    let t = chars_of(cmd.session_token().as_str());
    let a = chars_of(active_token.as_str());
    if !seq_eq(&t, &a) {
        return Admission::Reply(ErrorCode::Unauthorized);
    }
    if has_room {
        Admission::Forward
    } else {
        match cmd {
            ClientCommand::RefreshInstances { .. } => Admission::Drop,
            _ => Admission::Reply(ErrorCode::Busy),
        }
    }
}

/// Session rule: a command whose token is not the current session's token is
/// answered `Unauthorized` and never reaches the main loop, whatever the
/// command and whatever the queue state.
pub proof fn lemma_wrong_token_unauthorized(active_token: Seq<char>, cmd: ClientCommand, has_room: bool)
    requires
        command_token(cmd) != active_token,
    ensures
        admission(active_token, cmd, has_room) == Admission::Reply(ErrorCode::Unauthorized),
        admission(active_token, cmd, has_room) != Admission::Forward,
{
}

/// Minimum spacing of project-change notifications, in milliseconds.
pub const PROJECT_CHANGED_DEBOUNCE_MS: u64 = 500;

/// Debounced watcher of the DAW's project-state counter.
#[derive(Clone, Copy, Debug, PartialEq, Eq, Structural)]
pub struct Watchdog {
    pub last_change_count: i32,
    pub last_broadcast_ms: Option<u64>,
    pub last_track_count: i32,
    pub last_total_fx_count: i32,
}

/// The broadcast at `last` was less than the debounce interval before `now`.
pub open spec fn too_soon(last: Option<u64>, now: u64) -> bool {
    match last {
        Some(t) => now >= t && now - t < PROJECT_CHANGED_DEBOUNCE_MS,
        None => false,
    }
}

/// Whether a reading broadcasts a project change: the state counter moved,
/// the track count or the total effect count changed, and the last
/// broadcast is at least the debounce interval old.
pub open spec fn watchdog_emits(w: Watchdog, change_count: i32, track_count: i32, total_fx_count: i32, now_ms: u64) -> bool {
    change_count != w.last_change_count
        && (track_count != w.last_track_count || total_fx_count != w.last_total_fx_count)
        && !too_soon(w.last_broadcast_ms, now_ms)
}

/// The watchdog after a reading.
pub open spec fn watchdog_after(w: Watchdog, change_count: i32, track_count: i32, total_fx_count: i32, now_ms: u64) -> Watchdog {
    if change_count == w.last_change_count {
        w
    } else {
        Watchdog {
            last_change_count: change_count,
            last_broadcast_ms: if watchdog_emits(w, change_count, track_count, total_fx_count, now_ms) { Some(now_ms) } else { w.last_broadcast_ms },
            last_track_count: track_count,
            last_total_fx_count: total_fx_count,
        }
    }
}

/// Debounce: after a broadcast at `t`, no reading within the debounce
/// interval broadcasts, and a structural change at least the interval later
/// does.
pub proof fn lemma_debounce(w: Watchdog, c: i32, tracks: i32, fx: i32, t: u64, c2: i32, tracks2: i32, fx2: i32, now: u64)
    requires
        watchdog_emits(w, c, tracks, fx, t),
    ensures
        t <= now < t + PROJECT_CHANGED_DEBOUNCE_MS
            ==> !watchdog_emits(watchdog_after(w, c, tracks, fx, t), c2, tracks2, fx2, now),
        now >= t + PROJECT_CHANGED_DEBOUNCE_MS && c2 != c && (tracks2 != tracks || fx2 != fx)
            ==> watchdog_emits(watchdog_after(w, c, tracks, fx, t), c2, tracks2, fx2, now),
{
}

impl Watchdog {
    /// A watchdog that has seen nothing yet.
    pub fn new() -> (r: Watchdog)
        ensures
            r == (Watchdog { last_change_count: 0, last_broadcast_ms: None, last_track_count: -1i32, last_total_fx_count: -1i32 }),
    {
        Watchdog { last_change_count: 0, last_broadcast_ms: None, last_track_count: -1, last_total_fx_count: -1 }
    }

    /// Feeds one reading; returns whether to broadcast a project change. A
    /// reading counts only when the state counter moved and the track count
    /// or the total effect count differs from the last reading, and at most
    /// one broadcast goes out per debounce interval.
    pub fn observe(&mut self, change_count: i32, track_count: i32, total_fx_count: i32, now_ms: u64) -> (emit: bool)
        ensures
            change_count == old(self).last_change_count ==> *final(self) == *old(self) && !emit,
            change_count != old(self).last_change_count ==> {
                let affected = track_count != old(self).last_track_count || total_fx_count != old(self).last_total_fx_count;
                &&& final(self).last_change_count == change_count
                &&& final(self).last_track_count == track_count
                &&& final(self).last_total_fx_count == total_fx_count
                &&& emit == (affected && !too_soon(old(self).last_broadcast_ms, now_ms))
                &&& final(self).last_broadcast_ms == (if emit { Some(now_ms) } else { old(self).last_broadcast_ms })
            },
            emit == watchdog_emits(*old(self), change_count, track_count, total_fx_count, now_ms),
            *final(self) == watchdog_after(*old(self), change_count, track_count, total_fx_count, now_ms),
    {
        if change_count == self.last_change_count {
            return false;
        }
        self.last_change_count = change_count;
        let affected = track_count != self.last_track_count || total_fx_count != self.last_total_fx_count;
        self.last_track_count = track_count;
        self.last_total_fx_count = total_fx_count;
        if !affected {
            return false;
        }
        let soon = match self.last_broadcast_ms {
            Some(t) => now_ms >= t && now_ms - t < PROJECT_CHANGED_DEBOUNCE_MS,
            None => false,
        };
        if soon {
            return false;
        }
        self.last_broadcast_ms = Some(now_ms);
        true
    }
}

/// Messages the network thread hands to the main loop.
#[derive(Clone, Debug)]
pub enum InboundMsg {
    ClientConnected { session_token: String },
    ClientDisconnected,
    Command { cmd: ClientCommand },
}

/// What one tick has to do after draining the inbound queue.
#[derive(Clone, Debug)]
pub struct TickPlan {
    /// Token of the newest client that connected, if any.
    pub connected_token: Option<String>,
    /// Some command asked for a fresh scan.
    pub refresh: bool,
    /// The newest set-tone command; older ones are dropped.
    pub set_tone: Option<ClientCommand>,
    /// Some command acknowledged the handshake.
    pub handshake_ack: bool,
}

pub open spec fn is_set_tone(c: ClientCommand) -> bool {
    c matches ClientCommand::SetTone { .. }
}

/// Position of the last message in `m` satisfying the test, or -1.
pub open spec fn last_connected(m: Seq<InboundMsg>) -> int
    decreases m.len(),
{
    if m.len() == 0 { -1 } else if m.last() is ClientConnected { m.len() - 1 } else { last_connected(m.drop_last()) }
}

pub open spec fn last_set_tone(m: Seq<InboundMsg>) -> int
    decreases m.len(),
{
    if m.len() == 0 {
        -1
    } else if m.last() matches InboundMsg::Command { cmd } && is_set_tone(cmd) {
        m.len() - 1
    } else {
        last_set_tone(m.drop_last())
    }
}

pub open spec fn any_refresh(m: Seq<InboundMsg>) -> bool {
    exists|i: int| 0 <= i < m.len() && (#[trigger] m[i] matches InboundMsg::Command { cmd } && is_refresh(cmd))
}

pub open spec fn any_ack(m: Seq<InboundMsg>) -> bool {
    exists|i: int| 0 <= i < m.len() && (#[trigger] m[i] matches InboundMsg::Command { cmd } && cmd is HandshakeAck)
}

pub open spec fn any_disconnect(m: Seq<InboundMsg>) -> bool {
    exists|i: int| 0 <= i < m.len() && #[trigger] m[i] is ClientDisconnected
}

/// What the main loop remembers about the project: where effects were last
/// seen, and the watchdog's last readings.
#[derive(Clone, Debug)]
pub struct GojiraCache {
    pub lookup: Vec<FxLookupEntry>,
    pub watchdog: Watchdog,
}

/// The main loop's own state: the one active session, whether probing made
/// it ready for writes, and the project cache.
#[derive(Clone, Debug)]
pub struct MainLoop {
    pub active_session_token: Option<String>,
    pub validation_ready: bool,
    pub cache: GojiraCache,
    /// The client acknowledged this session's handshake.
    pub handshake_acked: bool,
    /// The newest set-tone that arrived before the acknowledgement.
    pub deferred_set_tone: Option<ClientCommand>,
}

/// Why a set-tone command was refused before any write.
#[derive(Clone, Copy, Debug, PartialEq, Eq, Structural)]
pub struct CommandError {
    pub code: ErrorCode,
    /// The offending parameter index, for `InvalidValue`.
    pub index: Option<i32>,
}

/// What the rest of a tick has to do after `MainLoop::begin_tick`.
#[derive(Clone, Debug)]
pub struct TickStart {
    /// Send a handshake (after a scan and probe) for this session token.
    pub handshake_for: Option<String>,
    /// Apply this set-tone command.
    pub set_tone: Option<ClientCommand>,
}

/// The writes a set-tone command comes down to, and where they go.
#[derive(Clone, Debug)]
pub struct SetTonePlan {
    pub track: usize,
    pub fx_index: i32,
    /// The parameters as the command sent them.
    pub requested: Vec<ParamChange>,
    /// The requested parameters after sanitizing: each requested index once,
    /// clamped; these are echoed in the acknowledgement.
    pub applied: Vec<ParamChange>,
    /// Everything to write, in order: `applied`, plus what the clean adds.
    pub writes: Vec<ParamChange>,
}

/// The writes for `params` in `mode`: sanitized, then cleaned when the mode
/// is `ReplaceActive`.
pub open spec fn planned_writes(mode: MergeMode, params: Seq<ParamChange>) -> Result<Seq<ParamChange>, SanitizeError> {
    match sanitized(params) {
        Ok(s) => Ok(if mode == MergeMode::ReplaceActive { replace_active(s) } else { s }),
        Err(e) => Err(e),
    }
}

impl MainLoop {
    /// No session, not ready, empty cache, fresh watchdog.
    pub fn new() -> (r: MainLoop)
        ensures
            r.active_session_token is None,
            !r.validation_ready,
            r.cache.lookup@.len() == 0,
            !r.handshake_acked,
            r.deferred_set_tone is None,
            r.cache.watchdog == (Watchdog { last_change_count: 0, last_broadcast_ms: None, last_track_count: -1i32, last_total_fx_count: -1i32 }),
    {
        MainLoop {
            active_session_token: None,
            validation_ready: false,
            cache: GojiraCache { lookup: Vec::new(), watchdog: Watchdog::new() },
            handshake_acked: false,
            deferred_set_tone: None,
        }
    }

    /// Drains one tick's inbound messages. A disconnect ends the session at
    /// once (no token, not ready, cache cleared); the newest connect, any
    /// refresh and the newest set-tone are returned for the rest of the tick.
    pub fn drain_inbound(&mut self, msgs: Vec<InboundMsg>) -> (r: TickPlan)
        ensures
            any_disconnect(msgs@) ==> final(self).active_session_token is None && !final(self).validation_ready
                && final(self).cache.lookup@.len() == 0,
            !any_disconnect(msgs@) ==> final(self).active_session_token == old(self).active_session_token
                && final(self).validation_ready == old(self).validation_ready && final(self).cache.lookup@ == old(self).cache.lookup@,
            final(self).cache.watchdog == old(self).cache.watchdog,
            r.refresh == any_refresh(msgs@),
            r.handshake_ack == any_ack(msgs@),
            final(self).handshake_acked == old(self).handshake_acked,
            final(self).deferred_set_tone == old(self).deferred_set_tone,
            last_connected(msgs@) < 0 ==> r.connected_token is None,
            last_connected(msgs@) >= 0 ==> (msgs@[last_connected(msgs@)] matches InboundMsg::ClientConnected { session_token }
                && r.connected_token matches Some(t) && t@ == session_token@),
            last_set_tone(msgs@) < 0 ==> r.set_tone is None,
            last_set_tone(msgs@) >= 0 ==> (msgs@[last_set_tone(msgs@)] matches InboundMsg::Command { cmd }
                && r.set_tone matches Some(c) && same_command(c, cmd)),
    {
        let mut plan = TickPlan { connected_token: None, refresh: false, set_tone: None, handshake_ack: false };
        let mut i: usize = 0;
        let ghost m = msgs@;
        assert(m.take(0) =~= Seq::<InboundMsg>::empty());
        while i < msgs.len()
            invariant
                m == msgs@,
                i <= m.len(),
                any_disconnect(m.take(i as int)) ==> self.active_session_token is None && !self.validation_ready
                    && self.cache.lookup@.len() == 0,
                !any_disconnect(m.take(i as int)) ==> self.active_session_token == old(self).active_session_token
                    && self.validation_ready == old(self).validation_ready && self.cache.lookup@ == old(self).cache.lookup@,
                self.cache.watchdog == old(self).cache.watchdog,
                plan.refresh == any_refresh(m.take(i as int)),
                plan.handshake_ack == any_ack(m.take(i as int)),
                self.handshake_acked == old(self).handshake_acked,
                self.deferred_set_tone == old(self).deferred_set_tone,
                last_connected(m.take(i as int)) < 0 ==> plan.connected_token is None,
                last_connected(m.take(i as int)) >= 0 ==> (m[last_connected(m.take(i as int))] matches InboundMsg::ClientConnected { session_token }
                    && plan.connected_token matches Some(t) && t@ == session_token@),
                last_set_tone(m.take(i as int)) < 0 ==> plan.set_tone is None,
                last_set_tone(m.take(i as int)) >= 0 ==> (m[last_set_tone(m.take(i as int))] matches InboundMsg::Command { cmd }
                    && plan.set_tone matches Some(c) && same_command(c, cmd)),
            decreases m.len() - i,
        {
            let ghost pre = m.take(i as int);
            let ghost post = m.take(i as int + 1);
            proof {
                assert(post.drop_last() =~= pre);
                assert(post.last() == m[i as int]);
                lemma_last_bounds(pre);
            }
            match &msgs[i] {
                InboundMsg::ClientConnected { session_token } => {
                    plan.connected_token = Some(session_token.clone());
                }
                InboundMsg::ClientDisconnected => {
                    self.active_session_token = None;
                    self.validation_ready = false;
                    self.cache.lookup = Vec::new();
                }
                InboundMsg::Command { cmd } => {
                    match cmd {
                        ClientCommand::RefreshInstances { .. } => { plan.refresh = true; }
                        ClientCommand::SetTone { .. } => { plan.set_tone = Some(cmd.duplicate()); }
                        ClientCommand::HandshakeAck { .. } => { plan.handshake_ack = true; }
                    }
                }
            }
            proof {
                if any_disconnect(post) && !(m[i as int] is ClientDisconnected) {
                    let k = choose|k: int| 0 <= k < post.len() && #[trigger] post[k] is ClientDisconnected;
                    assert(pre[k] is ClientDisconnected);
                }
                if any_disconnect(pre) {
                    let k = choose|k: int| 0 <= k < pre.len() && #[trigger] pre[k] is ClientDisconnected;
                    assert(post[k] is ClientDisconnected);
                }
                if m[i as int] is ClientDisconnected {
                    assert(post[i as int] is ClientDisconnected);
                }
                if any_refresh(post) && !any_refresh(pre) {
                    let k = choose|k: int| 0 <= k < post.len() && (#[trigger] post[k] matches InboundMsg::Command { cmd } && is_refresh(cmd));
                    if k < i { assert(pre[k] == post[k]); }
                }
                if any_refresh(pre) {
                    let k = choose|k: int| 0 <= k < pre.len() && (#[trigger] pre[k] matches InboundMsg::Command { cmd } && is_refresh(cmd));
                    assert(post[k] == pre[k]);
                }
                if m[i as int] matches InboundMsg::Command { cmd } && is_refresh(cmd) {
                    assert(post[i as int] == m[i as int]);
                }
                if any_ack(post) && !any_ack(pre) {
                    let k = choose|k: int| 0 <= k < post.len() && (#[trigger] post[k] matches InboundMsg::Command { cmd } && cmd is HandshakeAck);
                    if k < i { assert(pre[k] == post[k]); }
                }
                if any_ack(pre) {
                    let k = choose|k: int| 0 <= k < pre.len() && (#[trigger] pre[k] matches InboundMsg::Command { cmd } && cmd is HandshakeAck);
                    assert(post[k] == pre[k]);
                }
                if m[i as int] matches InboundMsg::Command { cmd } && cmd is HandshakeAck {
                    assert(post[i as int] == m[i as int]);
                }
            }
            i = i + 1;
        }
        proof { assert(m.take(i as int) =~= m); }
        plan
    }

    /// Starts the session of a newly connected client: its token becomes the
    /// only valid one and writes wait for a fresh probe.
    pub fn on_connected(&mut self, session_token: String)
        ensures
            (final(self).active_session_token matches Some(t) && t@ == session_token@),
            !final(self).validation_ready,
            !final(self).handshake_acked,
            final(self).deferred_set_tone is None,
            final(self).cache.lookup@ == old(self).cache.lookup@,
            final(self).cache.watchdog == old(self).cache.watchdog,
    {
        self.active_session_token = Some(session_token);
        self.validation_ready = false;
        self.handshake_acked = false;
        self.deferred_set_tone = None;
    }

    /// Holds set-tone commands back until the handshake is acknowledged:
    /// before that, the newest one waits (replacing any older waiting one)
    /// and nothing is applied; after it, the newest one of this tick is
    /// applied, or else the one that waited.
    pub fn gate_set_tone(&mut self, acked_now: bool, newest: Option<ClientCommand>) -> (r: Option<ClientCommand>)
        ensures
            final(self).handshake_acked == (old(self).handshake_acked || acked_now),
            !final(self).handshake_acked ==> r is None
                && final(self).deferred_set_tone == (if newest is Some { newest } else { old(self).deferred_set_tone }),
            final(self).handshake_acked ==> final(self).deferred_set_tone is None
                && r == (if newest is Some { newest } else { old(self).deferred_set_tone }),
            final(self).active_session_token == old(self).active_session_token,
            final(self).validation_ready == old(self).validation_ready,
            final(self).cache.lookup@ == old(self).cache.lookup@,
            final(self).cache.watchdog == old(self).cache.watchdog,
    {
        if acked_now {
            self.handshake_acked = true;
        }
        if !self.handshake_acked {
            if newest.is_some() {
                self.deferred_set_tone = newest;
            }
            return None;
        }
        let waiting = self.deferred_set_tone.take();
        if newest.is_some() { newest } else { waiting }
    }

    /// Records the outcome of a scan and probe: writes are allowed only when
    /// the probe produced a validation report.
    pub fn on_probed(&mut self, lookup: Vec<FxLookupEntry>, report_nonempty: bool)
        ensures
            final(self).validation_ready == report_nonempty,
            final(self).cache.lookup@ == lookup@,
            final(self).active_session_token == old(self).active_session_token,
            final(self).handshake_acked == old(self).handshake_acked,
            final(self).cache.watchdog == old(self).cache.watchdog,
    {
        self.cache.lookup = lookup;
        self.validation_ready = report_nonempty;
    }

    /// Feeds the watchdog one reading; when it fires, the lookup cache is
    /// dropped and writes wait for a fresh probe. Returns whether to
    /// broadcast a project change.
    pub fn watchdog_tick(&mut self, change_count: i32, track_count: i32, total_fx_count: i32, now_ms: u64) -> (emit: bool)
        ensures
            emit ==> final(self).cache.lookup@.len() == 0 && !final(self).validation_ready,
            !emit ==> final(self).cache.lookup@ == old(self).cache.lookup@ && final(self).validation_ready == old(self).validation_ready,
            final(self).active_session_token == old(self).active_session_token,
            emit == watchdog_emits(old(self).cache.watchdog, change_count, track_count, total_fx_count, now_ms),
            final(self).cache.watchdog == watchdog_after(old(self).cache.watchdog, change_count, track_count, total_fx_count, now_ms),
            final(self).handshake_acked == old(self).handshake_acked,
            final(self).deferred_set_tone == old(self).deferred_set_tone,
    {
        let emit = self.cache.watchdog.observe(change_count, track_count, total_fx_count, now_ms);
        if emit {
            self.cache.lookup = Vec::new();
            self.validation_ready = false;
        }
        emit
    }

    /// Decides a set-tone command: refused with `NotReady` before probing
    /// succeeded, with `TargetNotFound` when the target cannot be located
    /// (see `resolve_fx`), with `InvalidValue` when sanitizing fails; else
    /// the sanitized (and, for `ReplaceActive`, cleaned) writes. A failed
    /// lookup leaves the cache rebuilt.
    pub fn plan_set_tone(&mut self, snap: &ProjectSnapshot, target_fx_guid: &str, mode: MergeMode, params: Vec<ParamChange>)
        -> (r: Result<SetTonePlan, CommandError>)
        requires
            slots_fit(*snap),
        ensures
            !old(self).validation_ready ==> r == Err::<SetTonePlan, CommandError>(CommandError { code: ErrorCode::NotReady, index: None })
                && final(self).cache.lookup@ == old(self).cache.lookup@,
            old(self).validation_ready && located(*snap, final(self).cache.lookup@, target_fx_guid@) is None
                ==> r == Err::<SetTonePlan, CommandError>(CommandError { code: ErrorCode::TargetNotFound, index: None }),
            old(self).validation_ready && located(*snap, final(self).cache.lookup@, target_fx_guid@) is Some ==> match planned_writes(mode, params@) {
                Ok(w) => r matches Ok(p) && p.writes@ == w && p.requested@ == params@
                    && sanitized(params@) == Ok::<Seq<ParamChange>, SanitizeError>(p.applied@)
                    && located(*snap, final(self).cache.lookup@, target_fx_guid@) == Some((p.track as int, p.fx_index as int)),
                Err(e) => r == Err::<SetTonePlan, CommandError>(CommandError { code: ErrorCode::InvalidValue, index: Some(e.index) }),
            },
            final(self).active_session_token == old(self).active_session_token,
            final(self).validation_ready == old(self).validation_ready,
            final(self).cache.watchdog == old(self).cache.watchdog,
            final(self).handshake_acked == old(self).handshake_acked,
    {
        if !self.validation_ready {
            return Err(CommandError { code: ErrorCode::NotReady, index: None });
        }
        let (track, fx_index) = match resolve_fx(snap, &mut self.cache.lookup, target_fx_guid) {
            Ok(p) => p,
            Err(_) => { return Err(CommandError { code: ErrorCode::TargetNotFound, index: None }); }
        };
        let requested = copy_changes(&params);
        let clean = match sanitize_params(params) {
            Ok(p) => p,
            Err(e) => { return Err(CommandError { code: ErrorCode::InvalidValue, index: Some(e.index) }); }
        };
        let applied = copy_changes(&clean);
        let writes = apply_replace_active_cleaner(mode, clean);
        Ok(SetTonePlan { track, fx_index, requested, applied, writes })
    }

    /// The start of a tick: drains the inbound messages, registers the newest
    /// connected client (its token becomes the only valid one), and decides
    /// who gets a handshake (the newest connected client, else the current
    /// one when a refresh was asked) and which set-tone, if any, is applied
    /// now (see `gate_set_tone`).
    pub fn begin_tick(&mut self, msgs: Vec<InboundMsg>) -> (r: TickStart)
        ensures
            last_connected(msgs@) >= 0 ==> (msgs@[last_connected(msgs@)] matches InboundMsg::ClientConnected { session_token }
                && token_view(r.handshake_for) == Some(session_token@)
                && token_view(final(self).active_session_token) == Some(session_token@)),
            last_connected(msgs@) >= 0 ==> !final(self).validation_ready,
            last_connected(msgs@) < 0 ==> final(self).active_session_token
                == (if any_disconnect(msgs@) { None } else { old(self).active_session_token }),
            last_connected(msgs@) < 0 ==> token_view(r.handshake_for)
                == (if any_refresh(msgs@) && !any_disconnect(msgs@) { token_view(old(self).active_session_token) } else { None }),
            final(self).handshake_acked
                == ((if last_connected(msgs@) >= 0 { false } else { old(self).handshake_acked }) || any_ack(msgs@)),
            !final(self).handshake_acked ==> r.set_tone is None,
            !final(self).handshake_acked && last_set_tone(msgs@) >= 0 ==> (msgs@[last_set_tone(msgs@)] matches InboundMsg::Command { cmd }
                && final(self).deferred_set_tone matches Some(c) && same_command(c, cmd)),
            !final(self).handshake_acked && last_set_tone(msgs@) < 0 ==> final(self).deferred_set_tone
                == (if last_connected(msgs@) >= 0 { None } else { old(self).deferred_set_tone }),
            final(self).handshake_acked ==> final(self).deferred_set_tone is None,
            final(self).handshake_acked && last_set_tone(msgs@) >= 0 ==> (msgs@[last_set_tone(msgs@)] matches InboundMsg::Command { cmd }
                && r.set_tone matches Some(c) && same_command(c, cmd)),
            final(self).handshake_acked && last_set_tone(msgs@) < 0 ==> r.set_tone
                == (if last_connected(msgs@) >= 0 { None } else { old(self).deferred_set_tone }),
            final(self).cache.watchdog == old(self).cache.watchdog,
    {
        let plan = self.drain_inbound(msgs);
        let handshake_for = match plan.connected_token {
            Some(t) => {
                let announced = t.clone();
                self.on_connected(t);
                Some(announced)
            }
            None => {
                if plan.refresh {
                    match &self.active_session_token {
                        Some(t) => Some(t.clone()),
                        None => None,
                    }
                } else {
                    None
                }
            }
        };
        let set_tone = self.gate_set_tone(plan.handshake_ack, plan.set_tone);
        TickStart { handshake_for, set_tone }
    }

    /// Records a scan and probe for the session of `token` and builds its
    /// handshake; writes become allowed when the validation report is not
    /// empty.
    pub fn complete_handshake(
        &mut self,
        token: String,
        instances: Vec<GojiraInstance>,
        lookup: Vec<FxLookupEntry>,
        validation_report: Vec<ReportEntry>,
        param_enums: Vec<EnumTable>,
        param_formats: Vec<TripletEntry>,
        param_format_samples: Vec<SampleTable>,
    ) -> (r: ServerMessage)
        ensures
            final(self).validation_ready == (validation_report@.len() > 0),
            final(self).cache.lookup@ == lookup@,
            final(self).active_session_token == old(self).active_session_token,
            final(self).handshake_acked == old(self).handshake_acked,
            final(self).cache.watchdog == old(self).cache.watchdog,
            (r matches ServerMessage::Handshake { session_token, instances: i, validation_report: v, param_enums: e,
                param_formats: f, param_format_samples: s }
                && session_token@ == token@ && i@ == instances@ && v@ == validation_report@ && e@ == param_enums@
                && f@ == param_formats@ && s@ == param_format_samples@),
    {
        let ready = validation_report.len() > 0;
        self.on_probed(lookup, ready);
        ServerMessage::Handshake {
            session_token: token,
            instances,
            validation_report,
            param_enums,
            param_formats,
            param_format_samples,
        }
    }
}

proof fn lemma_last_bounds(m: Seq<InboundMsg>)
    ensures
        last_connected(m) < m.len(),
        last_set_tone(m) < m.len(),
    decreases m.len(),
{
    if m.len() > 0 {
        lemma_last_bounds(m.drop_last());
    }
}

/// The acknowledgement entries of a completed batch: one per requested
/// index (`applied` is the sanitized request), with the value the command
/// asked for, the value written after clamping, and the display read back at
/// it (`formatted[k]` belongs to `applied[k]`).
pub fn applied_params(requested: &Vec<ParamChange>, applied: &Vec<ParamChange>, formatted: Vec<String>) -> (r: Vec<AppliedParam>)
    requires
        formatted@.len() == applied@.len(),
    ensures
        r@.len() == applied@.len(),
        forall|k: int| 0 <= k < r@.len() ==> {
            let a = #[trigger] r@[k];
            &&& a.index == applied@[k].index
            &&& a.applied == applied@[k].value
            &&& a.requested as int == (match value_at(requested@, applied@[k].index) { Some(v) => v as int, None => applied@[k].value as int })
            &&& a.formatted@ == formatted@[k]@
        },
{
    let mut out: Vec<AppliedParam> = Vec::new();
    let mut k: usize = 0;
    while k < applied.len()
        invariant
            k <= applied@.len(),
            formatted@.len() == applied@.len(),
            out@.len() == k,
            forall|m: int| 0 <= m < k ==> {
                let a = #[trigger] out@[m];
                &&& a.index == applied@[m].index
                &&& a.applied == applied@[m].value
                &&& a.requested as int == (match value_at(requested@, applied@[m].index) { Some(v) => v as int, None => applied@[m].value as int })
                &&& a.formatted@ == formatted@[m]@
            },
        decreases applied@.len() - k,
    {
        let w = applied[k];
        let req = match crate::diff::value_at_exec(requested, w.index) {
            Some(v) => v,
            None => w.value,
        };
        out.push(AppliedParam { index: w.index, requested: req, applied: w.value, formatted: formatted[k].clone() });
        k = k + 1;
    }
    out
}

/// Decimal digits of `n`.
pub open spec fn decimal_digits(n: nat) -> Seq<char>
    decreases n,
{
    if n < 10 {
        seq![((n + 48) as u8) as char]
    } else {
        decimal_digits(n / 10) + seq![(((n % 10) + 48) as u8) as char]
    }
}

/// Decimal text of `i`, with a leading `-` when negative.
pub open spec fn decimal_text(i: int) -> Seq<char> {
    if i < 0 { seq!['-'] + decimal_digits((-i) as nat) } else { decimal_digits(i as nat) }
}

fn digits_of(n: u32) -> (r: Vec<char>)
    ensures
        r@ == decimal_digits(n as nat),
    decreases n,
{
    if n < 10 {
        let r = vec![((n + 48) as u8) as char];
        assert(r@ =~= decimal_digits(n as nat));
        r
    } else {
        let mut r = digits_of(n / 10);
        r.push((((n % 10) + 48) as u8) as char);
        assert(r@ =~= decimal_digits(n as nat));
        r
    }
}

/// The decimal text of a parameter index.
pub fn decimal_string(i: i32) -> (r: String)
    ensures
        r@ == decimal_text(i as int),
{
    if i < 0 {
        let mut v = vec!['-'];
        let d = digits_of(((-(i as i64)) as u64) as u32);
        let mut k: usize = 0;
        while k < d.len()
            invariant
                k <= d@.len(),
                v@ == seq!['-'] + d@.take(k as int),
            decreases d@.len() - k,
        {
            v.push(d[k]);
            proof { assert(v@ =~= seq!['-'] + d@.take(k as int + 1)); }
            k = k + 1;
        }
        proof { assert(d@.take(k as int) =~= d@); }
        string_of(&v)
    } else {
        string_of(&digits_of(i as u32))
    }
}

/// Finishes a set-tone batch. The host writes `plan.writes` in order and
/// stops at the first write the DAW refuses (`failed_at`). A refused write
/// gives an `InternalError` naming its index; a complete batch gives the
/// acknowledgement echoing each requested index (`formatted[k]` is the
/// display read back for `plan.applied[k]`).
pub fn finish_set_tone(command_id: String, plan: &SetTonePlan, failed_at: Option<usize>, formatted: Vec<String>) -> (r: ServerMessage)
    requires
        formatted@.len() == plan.applied@.len(),
        failed_at matches Some(k) ==> k < plan.writes@.len(),
    ensures
        failed_at matches Some(k) ==> (r matches ServerMessage::Error { msg, code }
            && code == ErrorCode::InternalError
            && msg@ == "apply failed at param "@ + decimal_text(plan.writes@[k as int].index as int)),
        failed_at is None ==> (r matches ServerMessage::Ack { command_id: id, applied_params }
            && id@ == command_id@
            && applied_params@.len() == plan.applied@.len()
            && forall|k: int| 0 <= k < applied_params@.len() ==> {
                let a = #[trigger] applied_params@[k];
                &&& a.index == plan.applied@[k].index
                &&& a.applied == plan.applied@[k].value
                &&& a.requested as int == (match value_at(plan.requested@, plan.applied@[k].index) { Some(v) => v as int, None => plan.applied@[k].value as int })
                &&& a.formatted@ == formatted@[k]@
            }),
{
    match failed_at {
        Some(k) => {
            let mut msg = String::from_str("apply failed at param ");
            let d = decimal_string(plan.writes[k].index);
            msg.append(d.as_str());
            ServerMessage::Error { msg, code: ErrorCode::InternalError }
        }
        None => {
            let applied_params = applied_params(&plan.requested, &plan.applied, formatted);
            ServerMessage::Ack { command_id, applied_params }
        }
    }
}

/// Messages the main loop hands to the network thread.
#[derive(Clone, Debug)]
pub enum OutboundMsg {
    Send { msg: ServerMessage },
}

/// The network side's view of the single client: the token of the
/// connection that is currently served, if any.
#[derive(Clone, Debug)]
pub struct NetSession {
    pub active_token: Option<String>,
}

pub open spec fn token_view(t: Option<String>) -> Option<Seq<char>> {
    match t {
        Some(s) => Some(s@),
        None => None,
    }
}

/// What happens to a command given the served connection's token: without a
/// served connection nothing is forwarded.
pub open spec fn net_admission(active: Option<Seq<char>>, cmd: ClientCommand, has_room: bool) -> Admission {
    match active {
        Some(t) => admission(t, cmd, has_room),
        None => Admission::Drop,
    }
}

impl NetSession {
    pub fn new() -> (r: NetSession)
        ensures
            r.active_token is None,
    {
        NetSession { active_token: None }
    }

    /// A new connection was accepted: the served connection, if any, is to be
    /// closed and its end reported (returns whether there was one); until the
    /// new one is registered, no token is valid.
    pub fn begin_accept(&mut self) -> (close_prior: bool)
        ensures
            close_prior == old(self).active_token is Some,
            final(self).active_token is None,
    {
        let had = self.active_token.is_some();
        self.active_token = None;
        had
    }

    /// Registers the accepted connection under `token` when its arrival could
    /// be queued for the main loop; otherwise the client is refused as busy.
    pub fn finish_accept(&mut self, token: String, queued: bool) -> (refusal: Option<ErrorCode>)
        ensures
            queued ==> refusal is None && token_view(final(self).active_token) == Some(token@),
            !queued ==> refusal == Some(ErrorCode::Busy) && final(self).active_token is None,
    {
        if queued {
            self.active_token = Some(token);
            None
        } else {
            self.active_token = None;
            Some(ErrorCode::Busy)
        }
    }

    /// The served connection closed or failed.
    pub fn connection_lost(&mut self)
        ensures
            final(self).active_token is None,
    {
        self.active_token = None;
    }

    /// Decides what to do with a parsed command from the served connection.
    pub fn decide_command(&self, cmd: &ClientCommand, has_room: bool) -> (r: Admission)
        ensures
            r == net_admission(token_view(self.active_token), *cmd, has_room),
    {
        match &self.active_token {
            Some(t) => admit_command(t, cmd, has_room),
            None => Admission::Drop,
        }
    }
}

/// At most one token is valid at a time: once a new connection is registered
/// under `token`, every command carrying any other token is refused as
/// unauthorized, whatever was served before.
pub proof fn lemma_only_newest_token_valid(token: Seq<char>, cmd: ClientCommand, has_room: bool)
    requires
        command_token(cmd) != token,
    ensures
        net_admission(Some(token), cmd, has_room) == Admission::Reply(ErrorCode::Unauthorized),
{
}

} // verus!
