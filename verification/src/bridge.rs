//! The connection-supervision state machine.
//!
//! One cycle resolves an endpoint, connects, streams shot lines, and on
//! any failure backs off for the reconnect delay before resolving again;
//! nothing in steady state is fatal. The machine decides; its
//! surroundings perform the discovery, connection, reads and sleeps and
//! report what happened.

use crate::config::{NovaConfigError, NovaDiscoveryConfig, NovaDiscoveryMethod};
use crate::discovery::{DiscoveryMethod, NovaEndpoint};
use vstd::prelude::*;

verus! {

/// The discovery attempts one resolution cycle makes, in order: SSDP
/// falls back to one mDNS attempt, mDNS stands alone, and manual
/// configuration performs no discovery at all.
pub open spec fn spec_plan(method: NovaDiscoveryMethod) -> Seq<DiscoveryMethod> {
    match method {
        NovaDiscoveryMethod::Ssdp => seq![DiscoveryMethod::Ssdp, DiscoveryMethod::Mdns],
        NovaDiscoveryMethod::Mdns => seq![DiscoveryMethod::Mdns],
        NovaDiscoveryMethod::Manual => Seq::empty(),
    }
}

/// The ordered discovery attempts for one resolution cycle.
pub fn resolution_plan(method: NovaDiscoveryMethod) -> (plan: Vec<DiscoveryMethod>)
    ensures
        plan@ == spec_plan(method),
{
    let mut plan: Vec<DiscoveryMethod> = Vec::new();
    match method {
        NovaDiscoveryMethod::Ssdp => {
            plan.push(DiscoveryMethod::Ssdp);
            plan.push(DiscoveryMethod::Mdns);
            proof {
                assert(plan@ =~= spec_plan(method));
            }
        },
        NovaDiscoveryMethod::Mdns => {
            plan.push(DiscoveryMethod::Mdns);
            proof {
                assert(plan@ =~= spec_plan(method));
            }
        },
        NovaDiscoveryMethod::Manual => {
            proof {
                assert(plan@ =~= spec_plan(method));
            }
        },
    }
    plan
}

/// A supervisor state.
#[derive(Debug)]
pub enum BridgeState {
    /// No endpoint is known; `pending` lists the discovery attempts still
    /// to be made in this cycle.
    Resolving { pending: Vec<DiscoveryMethod> },
    /// An endpoint is known; a connection attempt is due.
    Connecting { endpoint: NovaEndpoint },
    /// The connection is open; shot lines are being read.
    Streaming { endpoint: NovaEndpoint },
    /// The cycle ended; the reconnect delay is running.
    Backoff,
}

/// What the supervisor asks its surroundings to do next.
#[derive(Debug, Clone, Copy, PartialEq, Eq, Structural)]
pub enum BridgeAction {
    /// Run one bounded discovery attempt with the given protocol.
    Discover(DiscoveryMethod),
    /// Look up the configured manual endpoint; no network activity.
    ResolveManual,
    /// Open a connection to the endpoint held by the state, with the
    /// short connect timeout.
    Connect,
    /// Read shot lines from the open connection until it ends.
    ReadLines,
    /// Wait this many seconds before the next resolution cycle.
    Sleep(u64),
}

/// What the surroundings report back.
#[derive(Debug)]
pub enum BridgeEvent {
    /// Resolution produced an endpoint: a discovery attempt succeeded or
    /// the manual endpoint was read.
    Resolved(NovaEndpoint),
    /// The current resolution attempt failed.
    ResolveFailed,
    /// The connection attempt succeeded.
    Connected,
    /// The connection attempt failed.
    ConnectFailed,
    /// The stream ended: a zero-length read, the idle timeout, or any
    /// other stream error.
    StreamEnded,
    /// The reconnect delay elapsed.
    DelayElapsed,
}

/// The abstract supervisor state, with the endpoint as plain values.
pub enum StateV {
    Resolving(Seq<DiscoveryMethod>),
    Connecting(Seq<char>, u16),
    Streaming(Seq<char>, u16),
    Backoff,
}

/// The abstract event.
pub enum EventV {
    Resolved(Seq<char>, u16),
    ResolveFailed,
    Connected,
    ConnectFailed,
    StreamEnded,
    DelayElapsed,
}

/// The abstract state a concrete one represents.
pub open spec fn state_view(s: BridgeState) -> StateV {
    match s {
        BridgeState::Resolving { pending } => StateV::Resolving(pending@),
        BridgeState::Connecting { endpoint } => StateV::Connecting(endpoint.host@, endpoint.port),
        BridgeState::Streaming { endpoint } => StateV::Streaming(endpoint.host@, endpoint.port),
        BridgeState::Backoff => StateV::Backoff,
    }
}

/// The abstract event a concrete one represents.
pub open spec fn event_view(e: BridgeEvent) -> EventV {
    match e {
        BridgeEvent::Resolved(ep) => EventV::Resolved(ep.host@, ep.port),
        BridgeEvent::ResolveFailed => EventV::ResolveFailed,
        BridgeEvent::Connected => EventV::Connected,
        BridgeEvent::ConnectFailed => EventV::ConnectFailed,
        BridgeEvent::StreamEnded => EventV::StreamEnded,
        BridgeEvent::DelayElapsed => EventV::DelayElapsed,
    }
}

/// The transition relation of the supervisor: what each event makes of
/// each state. An event that cannot arise in the current state leaves it
/// unchanged.
pub open spec fn spec_step(cfg: NovaDiscoveryConfig, s: StateV, e: EventV) -> StateV {
    match (s, e) {
        (StateV::Resolving(pending), EventV::Resolved(host, port)) => StateV::Connecting(
            host,
            port,
        ),
        (StateV::Resolving(pending), EventV::ResolveFailed) => {
            if cfg.method is Manual || pending.len() <= 1 {
                StateV::Backoff
            } else {
                StateV::Resolving(pending.drop_first())
            }
        },
        (StateV::Connecting(host, port), EventV::Connected) => StateV::Streaming(host, port),
        (StateV::Connecting(host, port), EventV::ConnectFailed) => StateV::Backoff,
        (StateV::Streaming(host, port), EventV::StreamEnded) => StateV::Backoff,
        (StateV::Backoff, EventV::DelayElapsed) => StateV::Resolving(spec_plan(cfg.method)),
        (other, _) => other,
    }
}

/// The action due in each state.
pub open spec fn spec_action(cfg: NovaDiscoveryConfig, s: StateV) -> BridgeAction {
    match s {
        StateV::Resolving(pending) => {
            if cfg.method is Manual {
                BridgeAction::ResolveManual
            } else {
                BridgeAction::Discover(pending[0])
            }
        },
        StateV::Connecting(host, port) => BridgeAction::Connect,
        StateV::Streaming(host, port) => BridgeAction::ReadLines,
        StateV::Backoff => BridgeAction::Sleep(cfg.reconnect_delay_secs),
    }
}

/// A resolving state always has an attempt left unless the method is
/// manual, which makes none.
pub open spec fn state_wf(cfg: NovaDiscoveryConfig, s: StateV) -> bool {
    s matches StateV::Resolving(pending) ==> if cfg.method is Manual {
        pending.len() == 0
    } else {
        pending.len() >= 1
    }
}

/// The state in which every cycle begins.
pub fn initial_state(cfg: &NovaDiscoveryConfig) -> (s: BridgeState)
    ensures
        state_view(s) == StateV::Resolving(spec_plan(cfg.method)),
        state_wf(*cfg, state_view(s)),
{
    BridgeState::Resolving { pending: resolution_plan(cfg.method) }
}

/// The action the supervisor asks for in state `s`.
pub fn next_action(cfg: &NovaDiscoveryConfig, s: &BridgeState) -> (a: BridgeAction)
    requires
        state_wf(*cfg, state_view(*s)),
    ensures
        a == spec_action(*cfg, state_view(*s)),
{
    match s {
        BridgeState::Resolving { pending } => {
            if matches!(cfg.method, NovaDiscoveryMethod::Manual) {
                BridgeAction::ResolveManual
            } else {
                BridgeAction::Discover(pending[0])
            }
        },
        BridgeState::Connecting { .. } => BridgeAction::Connect,
        BridgeState::Streaming { .. } => BridgeAction::ReadLines,
        BridgeState::Backoff => BridgeAction::Sleep(cfg.reconnect_delay_secs),
    }
}

/// Apply one event to the supervisor.
pub fn step(cfg: &NovaDiscoveryConfig, s: BridgeState, e: BridgeEvent) -> (next: BridgeState)
    ensures
        state_view(next) == spec_step(*cfg, state_view(s), event_view(e)),
        state_wf(*cfg, state_view(s)) ==> state_wf(*cfg, state_view(next)),
{
    match (s, e) {
        (BridgeState::Resolving { pending }, BridgeEvent::Resolved(ep)) => {
            BridgeState::Connecting { endpoint: ep }
        },
        (BridgeState::Resolving { mut pending }, BridgeEvent::ResolveFailed) => {
            if matches!(cfg.method, NovaDiscoveryMethod::Manual) || pending.len() <= 1 {
                BridgeState::Backoff
            } else {
                let ghost orig = pending@;
                pending.remove(0);
                proof {
                    assert(pending@ =~= orig.drop_first());
                }
                BridgeState::Resolving { pending }
            }
        },
        (BridgeState::Connecting { endpoint }, BridgeEvent::Connected) => {
            BridgeState::Streaming { endpoint }
        },
        (BridgeState::Connecting { .. }, BridgeEvent::ConnectFailed) => BridgeState::Backoff,
        (BridgeState::Streaming { .. }, BridgeEvent::StreamEnded) => BridgeState::Backoff,
        (BridgeState::Backoff, BridgeEvent::DelayElapsed) => {
            BridgeState::Resolving { pending: resolution_plan(cfg.method) }
        },
        (other, _) => other,
    }
}

/// The manual endpoint, as resolution returns it: the configured value
/// verbatim, and the configuration error when manual mode lacks its
/// endpoint. Resolution never touches the network for it.
pub fn resolve_manual(cfg: &NovaDiscoveryConfig) -> (r: Result<NovaEndpoint, NovaConfigError>)
    ensures
        r is Ok <==> cfg.manual_endpoint is Some,
        cfg.manual_endpoint matches Some(ep) ==> (r matches Ok(out) && out.host@ == ep.host@
            && out.port == ep.port),
        r is Err ==> r->Err_0 == NovaConfigError::MissingManualEndpoint,
{
    match &cfg.manual_endpoint {
        Some(ep) => Ok(NovaEndpoint { host: ep.host.clone(), port: ep.port }),
        None => Err(NovaConfigError::MissingManualEndpoint),
    }
}

/// Resolver fallback under the default method: the first attempt is
/// SSDP; when it fails, exactly one mDNS attempt follows; when that also
/// fails, the cycle ends in backoff without further discovery.
pub proof fn lemma_resolver_fallback(cfg: NovaDiscoveryConfig)
    requires
        cfg.method is Ssdp,
    ensures
        spec_action(cfg, StateV::Resolving(spec_plan(cfg.method))) == BridgeAction::Discover(
            DiscoveryMethod::Ssdp,
        ),
        spec_step(cfg, StateV::Resolving(spec_plan(cfg.method)), EventV::ResolveFailed)
            == StateV::Resolving(seq![DiscoveryMethod::Mdns]),
        spec_action(cfg, StateV::Resolving(seq![DiscoveryMethod::Mdns]))
            == BridgeAction::Discover(DiscoveryMethod::Mdns),
        spec_step(cfg, StateV::Resolving(seq![DiscoveryMethod::Mdns]), EventV::ResolveFailed)
            == StateV::Backoff,
{
    assert(spec_plan(cfg.method).drop_first() =~= seq![DiscoveryMethod::Mdns]);
}

/// Manual configuration performs no network discovery: its plan is empty
/// and its resolving state only ever asks for the manual endpoint.
pub proof fn lemma_manual_never_discovers(cfg: NovaDiscoveryConfig, s: StateV)
    requires
        cfg.method is Manual,
        state_wf(cfg, s),
        s is Resolving,
    ensures
        spec_plan(cfg.method) == Seq::<DiscoveryMethod>::empty(),
        spec_action(cfg, s) == BridgeAction::ResolveManual,
        forall|m: DiscoveryMethod| spec_action(cfg, s) != BridgeAction::Discover(m),
{
}

/// Reconnection: when a stream ends, the supervisor backs off; the only
/// action in backoff is the reconnect-delay sleep — no device input or
/// output is requested — and when the delay elapses a fresh resolution
/// cycle begins.
pub proof fn lemma_reconnect_after_stream_end(
    cfg: NovaDiscoveryConfig,
    host: Seq<char>,
    port: u16,
)
    ensures
        spec_step(cfg, StateV::Streaming(host, port), EventV::StreamEnded) == StateV::Backoff,
        spec_action(cfg, StateV::Backoff) == BridgeAction::Sleep(cfg.reconnect_delay_secs),
        spec_action(cfg, StateV::Backoff) != BridgeAction::Connect,
        spec_action(cfg, StateV::Backoff) != BridgeAction::ReadLines,
        forall|m: DiscoveryMethod| spec_action(cfg, StateV::Backoff) != BridgeAction::Discover(m),
        spec_step(cfg, StateV::Backoff, EventV::DelayElapsed) == StateV::Resolving(
            spec_plan(cfg.method),
        ),
{
}

} // verus!
