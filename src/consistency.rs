use vstd::prelude::*;
use crate::protocol::ParamChange;
use crate::cleaner::{has_index, touches_range, find_index, exec_touches_range};
use crate::diff::{value_at, value_at_exec};

verus! {

/// Number of module toggle checks.
pub const CHECK_COUNT: usize = 9;

/// The amp channels the amp selector chooses between.
#[derive(Clone, Copy, Debug, PartialEq, Eq, Structural)]
pub enum AmpChannel {
    Clean,
    Rust,
    Hot,
}

/// A hint that a proposal is internally inconsistent.
#[derive(Clone, Copy, Debug, PartialEq, Eq, Structural)]
pub enum ConsistencyWarning {
    /// Knobs of a module are set but its toggle (this index) is not.
    MissingToggle(i32),
    /// The amp selector picks this channel, yet other channels' controls are
    /// edited alongside its own.
    OtherChannelsEdited(AmpChannel),
    /// The amp selector picks this channel, yet none of its controls is edited.
    ChannelUntouched(AmpChannel),
}

/// Toggle index of check `c`.
pub open spec fn check_toggle(c: int) -> i32 {
    if c == 0 { 4 } else if c == 1 { 8 } else if c == 2 { 13 } else if c == 3 { 17 } else if c == 4 { 21 }
    else if c == 5 { 23 } else if c == 6 { 101 } else if c == 7 { 112 } else { 83 }
}

/// Dependent indices of check `c`.
pub open spec fn check_deps(c: int) -> Seq<i32> {
    if c == 0 { seq![5i32, 6, 7] }
    else if c == 1 { seq![9i32, 10, 11] }
    else if c == 2 { seq![14i32, 15, 16] }
    else if c == 3 { seq![18i32, 19, 20] }
    else if c == 4 { seq![22i32] }
    else if c == 5 { seq![24i32, 25, 26, 27] }
    else if c == 6 { seq![105i32, 106, 108] }
    else if c == 7 { seq![114i32, 115, 116, 117] }
    else { seq![84i32, 85, 86, 87, 88, 89, 90, 91, 92, 93, 94, 95, 96, 97, 98, 99] }
}

pub open spec fn any_dep(s: Seq<ParamChange>, deps: Seq<i32>) -> bool {
    exists|j: int| 0 <= j < deps.len() && has_index(s, #[trigger] deps[j])
}

/// Missing-toggle warnings of checks `c..`, in order.
pub open spec fn toggle_warnings(s: Seq<ParamChange>, c: int) -> Seq<ConsistencyWarning>
    decreases CHECK_COUNT - c,
{
    if c < 0 || c >= CHECK_COUNT {
        Seq::empty()
    } else if any_dep(s, check_deps(c)) && !has_index(s, check_toggle(c)) {
        seq![ConsistencyWarning::MissingToggle(check_toggle(c))] + toggle_warnings(s, c + 1)
    } else {
        toggle_warnings(s, c + 1)
    }
}

/// Controls of a channel: its amp knobs and its EQ section.
pub open spec fn channel_touched(s: Seq<ParamChange>, ch: AmpChannel) -> bool {
    match ch {
        AmpChannel::Clean => touches_range(s, 30, 35) || touches_range(s, 53, 62),
        AmpChannel::Rust => touches_range(s, 36, 43) || touches_range(s, 63, 72),
        AmpChannel::Hot => touches_range(s, 44, 51) || touches_range(s, 73, 82),
    }
}

/// The channel a selector value is nearest to, within 0.2.
pub open spec fn channel_of(v: i64) -> Option<AmpChannel> {
    if -200_000 < v < 200_000 {
        Some(AmpChannel::Clean)
    } else if 300_000 < v < 700_000 {
        Some(AmpChannel::Rust)
    } else if 800_000 < v < 1_200_000 {
        Some(AmpChannel::Hot)
    } else {
        None
    }
}

pub open spec fn others_touched(s: Seq<ParamChange>, ch: AmpChannel) -> bool {
    match ch {
        AmpChannel::Clean => channel_touched(s, AmpChannel::Rust) || channel_touched(s, AmpChannel::Hot),
        AmpChannel::Rust => channel_touched(s, AmpChannel::Clean) || channel_touched(s, AmpChannel::Hot),
        AmpChannel::Hot => channel_touched(s, AmpChannel::Clean) || channel_touched(s, AmpChannel::Rust),
    }
}

/// Amp warnings for the channel the selector (index 29) picks.
pub open spec fn amp_warnings(s: Seq<ParamChange>) -> Seq<ConsistencyWarning> {
    match value_at(s, 29) {
        Some(v) => match channel_of(v) {
            Some(ch) => {
                let mine = channel_touched(s, ch);
                (if others_touched(s, ch) && mine { seq![ConsistencyWarning::OtherChannelsEdited(ch)] } else { Seq::empty() })
                    + (if !mine { seq![ConsistencyWarning::ChannelUntouched(ch)] } else { Seq::empty() })
            },
            None => Seq::empty(),
        },
        None => Seq::empty(),
    }
}

fn deps_vec(c: usize) -> (r: Vec<i32>)
    requires
        c < CHECK_COUNT,
    ensures
        r@ == check_deps(c as int),
{
    let r = if c == 0 { vec![5i32, 6, 7] }
    else if c == 1 { vec![9i32, 10, 11] }
    else if c == 2 { vec![14i32, 15, 16] }
    else if c == 3 { vec![18i32, 19, 20] }
    else if c == 4 { vec![22i32] }
    else if c == 5 { vec![24i32, 25, 26, 27] }
    else if c == 6 { vec![105i32, 106, 108] }
    else if c == 7 { vec![114i32, 115, 116, 117] }
    else { vec![84i32, 85, 86, 87, 88, 89, 90, 91, 92, 93, 94, 95, 96, 97, 98, 99] };
    assert(r@ =~= check_deps(c as int));
    r
}

fn toggle_of(c: usize) -> (r: i32)
    ensures
        r == check_toggle(c as int),
{
    if c == 0 { 4 } else if c == 1 { 8 } else if c == 2 { 13 } else if c == 3 { 17 } else if c == 4 { 21 }
    else if c == 5 { 23 } else if c == 6 { 101 } else if c == 7 { 112 } else { 83 }
}

fn any_dep_exec(s: &Vec<ParamChange>, deps: &Vec<i32>) -> (r: bool)
    ensures
        r == any_dep(s@, deps@),
{
    let mut j: usize = 0;
    while j < deps.len()
        invariant
            j <= deps@.len(),
            forall|m: int| 0 <= m < j ==> !has_index(s@, #[trigger] deps@[m]),
        decreases deps@.len() - j,
    {
        if find_index(s, deps[j]) {
            return true;
        }
        j = j + 1;
    }
    false
}

fn channel_touched_exec(s: &Vec<ParamChange>, ch: AmpChannel) -> (r: bool)
    ensures
        r == channel_touched(s@, ch),
{
    match ch {
        AmpChannel::Clean => exec_touches_range(s, 30, 35) || exec_touches_range(s, 53, 62),
        AmpChannel::Rust => exec_touches_range(s, 36, 43) || exec_touches_range(s, 63, 72),
        AmpChannel::Hot => exec_touches_range(s, 44, 51) || exec_touches_range(s, 73, 82),
    }
}

/// Lists the inconsistencies of a proposal: modules whose knobs are set
/// without their toggle, then, when the amp selector is set, edits that do
/// not match the channel it picks.
pub fn module_consistency_warnings(params: &Vec<ParamChange>) -> (r: Vec<ConsistencyWarning>)
    ensures
        r@ == toggle_warnings(params@, 0) + amp_warnings(params@),
{
    let mut out: Vec<ConsistencyWarning> = Vec::new();
    let mut c: usize = 0;
    while c < CHECK_COUNT
        invariant
            c <= CHECK_COUNT,
            out@ + toggle_warnings(params@, c as int) == toggle_warnings(params@, 0),
        decreases CHECK_COUNT - c,
    {
        let deps = deps_vec(c);
        let t = toggle_of(c);
        if any_dep_exec(params, &deps) && !find_index(params, t) {
            let ghost before = out@;
            out.push(ConsistencyWarning::MissingToggle(t));
            proof {
                assert(out@ + toggle_warnings(params@, c as int + 1) =~= before + toggle_warnings(params@, c as int));
            }
        }
        c = c + 1;
    }
    proof {
        assert(toggle_warnings(params@, CHECK_COUNT as int) =~= Seq::<ConsistencyWarning>::empty());
        assert(out@ =~= toggle_warnings(params@, 0));
    }
    let ghost toggles = out@;
    match value_at_exec(params, 29) {
        Some(v) => {
            let ch = if -200_000 < v && v < 200_000 {
                Some(AmpChannel::Clean)
            } else if 300_000 < v && v < 700_000 {
                Some(AmpChannel::Rust)
            } else if 800_000 < v && v < 1_200_000 {
                Some(AmpChannel::Hot)
            } else {
                None
            };
            match ch {
                Some(ch) => {
                    let mine = channel_touched_exec(params, ch);
                    let others = match ch {
                        AmpChannel::Clean => channel_touched_exec(params, AmpChannel::Rust) || channel_touched_exec(params, AmpChannel::Hot),
                        AmpChannel::Rust => channel_touched_exec(params, AmpChannel::Clean) || channel_touched_exec(params, AmpChannel::Hot),
                        AmpChannel::Hot => channel_touched_exec(params, AmpChannel::Clean) || channel_touched_exec(params, AmpChannel::Rust),
                    };
                    if others && mine {
                        out.push(ConsistencyWarning::OtherChannelsEdited(ch));
                    }
                    if !mine {
                        out.push(ConsistencyWarning::ChannelUntouched(ch));
                    }
                    proof { assert(out@ =~= toggles + amp_warnings(params@)); }
                }
                None => {
                    proof { assert(out@ =~= toggles + amp_warnings(params@)); }
                }
            }
        }
        None => {
            proof { assert(out@ =~= toggles + amp_warnings(params@)); }
        }
    }
    out
}

} // verus!
