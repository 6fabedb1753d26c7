use nova_bridge::bridge::{initial_state, next_action, resolution_plan, resolve_manual, step,
    BridgeAction, BridgeEvent, BridgeState};
use nova_bridge::config::{NovaConfigError, NovaDiscoveryConfig, NovaDiscoveryMethod, NovaEndpoint};
use nova_bridge::discovery::DiscoveryMethod;

fn endpoint() -> nova_bridge::discovery::NovaEndpoint {
    nova_bridge::discovery::NovaEndpoint { host: "192.168.4.22".to_string(), port: 2921 }
}

#[test]
fn ssdp_falls_back_to_mdns_exactly_once() {
    let cfg = NovaDiscoveryConfig::default();
    let s0 = initial_state(&cfg);
    assert_eq!(next_action(&cfg, &s0), BridgeAction::Discover(DiscoveryMethod::Ssdp));

    let s1 = step(&cfg, s0, BridgeEvent::ResolveFailed);
    assert_eq!(next_action(&cfg, &s1), BridgeAction::Discover(DiscoveryMethod::Mdns));

    let s2 = step(&cfg, s1, BridgeEvent::ResolveFailed);
    assert!(matches!(s2, BridgeState::Backoff));
}

#[test]
fn manual_method_makes_no_discovery_attempt() {
    let cfg = NovaDiscoveryConfig {
        method: NovaDiscoveryMethod::Manual,
        manual_endpoint: Some(NovaEndpoint { host: "127.0.0.1".to_string(), port: 2921 }),
        ..Default::default()
    };
    assert_eq!(resolution_plan(cfg.method).len(), 0);
    let s0 = initial_state(&cfg);
    assert_eq!(next_action(&cfg, &s0), BridgeAction::ResolveManual);
    // Manual resolution returns the configured endpoint verbatim.
    let resolved = resolve_manual(&cfg).expect("endpoint configured");
    assert_eq!(resolved.host, "127.0.0.1");
    assert_eq!(resolved.port, 2921);
    // The resolver defends against misuse even though validation runs first.
    let bare = NovaDiscoveryConfig {
        method: NovaDiscoveryMethod::Manual,
        ..Default::default()
    };
    assert_eq!(
        resolve_manual(&bare).unwrap_err(),
        NovaConfigError::MissingManualEndpoint
    );
    // A failed manual lookup ends the cycle at once: no fallback.
    let s1 = step(&cfg, s0, BridgeEvent::ResolveFailed);
    assert!(matches!(s1, BridgeState::Backoff));
}

#[test]
fn successful_cycle_reaches_streaming() {
    let cfg = NovaDiscoveryConfig::default();
    let s0 = initial_state(&cfg);
    let s1 = step(&cfg, s0, BridgeEvent::Resolved(endpoint()));
    assert_eq!(next_action(&cfg, &s1), BridgeAction::Connect);
    match &s1 {
        BridgeState::Connecting { endpoint } => {
            assert_eq!(endpoint.host, "192.168.4.22");
            assert_eq!(endpoint.port, 2921);
        },
        other => panic!("expected a connecting state, found {other:?}"),
    }
    let s2 = step(&cfg, s1, BridgeEvent::Connected);
    assert_eq!(next_action(&cfg, &s2), BridgeAction::ReadLines);
}

#[test]
fn stream_end_waits_reconnect_delay_then_resolves_again() {
    let cfg = NovaDiscoveryConfig::default();
    let s0 = initial_state(&cfg);
    let s1 = step(&cfg, s0, BridgeEvent::Resolved(endpoint()));
    let s2 = step(&cfg, s1, BridgeEvent::Connected);

    // The device closes the connection (zero-length read).
    let s3 = step(&cfg, s2, BridgeEvent::StreamEnded);
    assert!(matches!(s3, BridgeState::Backoff));
    // The only action in backoff is the sleep: no device input or output.
    assert_eq!(next_action(&cfg, &s3), BridgeAction::Sleep(cfg.reconnect_delay_secs));

    // After the delay, a fresh resolution cycle begins.
    let s4 = step(&cfg, s3, BridgeEvent::DelayElapsed);
    match &s4 {
        BridgeState::Resolving { pending } => {
            assert_eq!(
                pending.as_slice(),
                &[DiscoveryMethod::Ssdp, DiscoveryMethod::Mdns]
            );
        },
        other => panic!("expected a resolving state, found {other:?}"),
    }
}

#[test]
fn connect_failure_backs_off_without_streaming() {
    let cfg = NovaDiscoveryConfig::default();
    let s0 = initial_state(&cfg);
    let s1 = step(&cfg, s0, BridgeEvent::Resolved(endpoint()));
    let s2 = step(&cfg, s1, BridgeEvent::ConnectFailed);
    assert!(matches!(s2, BridgeState::Backoff));
    assert_eq!(next_action(&cfg, &s2), BridgeAction::Sleep(3));
}
