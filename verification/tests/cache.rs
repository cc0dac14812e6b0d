use mcapi::cache::{
    cache_key, check_fresh, lock_key, CacheFlow, FlowAction, FlowEvent, FlowState, MAX_AGE,
};
use mcapi::envelope::{Metadata, ServerPing, ServerQuery};
use mcapi::error::Error;
use mcapi::ping::{Ping, Players, Version};

fn sample_ping() -> Ping {
    Ping {
        version: Version {
            name: Some("1.20".to_string()),
            protocol: 763,
        },
        players: Players {
            max: 20,
            online: 3,
            sample: None,
        },
        description: "{\"text\":\"hi\"}".to_string(),
        favicon: None,
    }
}

#[test]
fn test_check_fresh() {
    assert!(check_fresh(100, 350, 300));
    assert!(!check_fresh(10, 400, 300));
    // a stamp ahead of the clock still counts as fresh
    assert!(check_fresh(500, 400, 300));
    assert!(check_fresh(100, 400, 300));
    assert!(!check_fresh(99, 400, 300));
}

#[test]
fn test_cache_keys() {
    let key = cache_key("ping:", "example.com", 25565);
    assert_eq!(key, "ping:example.com:25565");
    assert_eq!(lock_key(&key), "lock:ping:example.com:25565");
    assert_eq!(cache_key("query:", "example.com", 1024), "query:example.com:1024");
}

#[test]
fn test_flow_fresh_hit_returns_without_refresh() {
    let (flow, action) = CacheFlow::<ServerPing>::start(MAX_AGE);
    assert!(matches!(action, FlowAction::Read));

    let env = ServerPing::from_ping("example.com".to_string(), 25565, sample_ping(), None)
        .set_times(1000, 77);
    let (flow, action) = flow.step(
        FlowEvent::ReadDone {
            value: Some(env),
        },
        1100,
    );
    assert_eq!(flow.state, FlowState::Finished);
    match action {
        FlowAction::Done { value } => {
            assert!(value.online);
            assert_eq!(value.fetched_at, 1000);
        }
        other => panic!("unexpected action {:?}", other),
    }
}

#[test]
fn test_flow_miss_refreshes_once_and_writes() {
    let (flow, action) = CacheFlow::<ServerQuery>::start(MAX_AGE);
    assert!(matches!(action, FlowAction::Read));

    // stale value: older than the bound
    let stale = ServerQuery::from_error(Error::Timeout).set_times(100, 5);
    let (flow, action) = flow.step(
        FlowEvent::ReadDone {
            value: Some(stale),
        },
        1000,
    );
    assert!(matches!(action, FlowAction::Lock));

    let (flow, action) = flow.step(FlowEvent::Locked, 1000);
    assert!(matches!(action, FlowAction::Read));

    let (flow, action) = flow.step(FlowEvent::ReadDone { value: None }, 1001);
    assert!(matches!(action, FlowAction::Refresh));
    assert!(flow.refreshed);

    let (flow, action) = flow.step(
        FlowEvent::Refreshed {
            outcome: Err(Error::Timeout),
            duration: 5_000_000_000,
        },
        1006,
    );
    match action {
        FlowAction::Write { ttl, online } => {
            assert_eq!(ttl, MAX_AGE);
            assert!(!online);
        }
        other => panic!("unexpected action {:?}", other),
    }
    let pending = flow.result.as_ref().unwrap();
    assert_eq!(pending.fetched_at, 1006);
    assert_eq!(pending.duration, 5_000_000_000);
    assert!(!pending.online);
    assert_eq!(pending.error.as_deref(), Some("timed out"));

    let (flow, action) = flow.step(FlowEvent::Written, 1006);
    assert!(matches!(action, FlowAction::Unlock));

    let (flow, action) = flow.step(FlowEvent::Unlocked, 1007);
    assert_eq!(flow.state, FlowState::Finished);
    match action {
        FlowAction::Done { value } => {
            assert!(!value.online);
            assert_eq!(value.fetched_at, 1006);
        }
        other => panic!("unexpected action {:?}", other),
    }
}

#[test]
fn test_flow_recheck_fresh_skips_refresh() {
    let (flow, _) = CacheFlow::<ServerPing>::start(MAX_AGE);
    let (flow, action) = flow.step(FlowEvent::ReadDone { value: None }, 1000);
    assert!(matches!(action, FlowAction::Lock));
    let (flow, _) = flow.step(FlowEvent::Locked, 1000);

    // someone else refreshed while this flow waited for the lock
    let fresh = ServerPing::from_ping("example.com".to_string(), 25565, sample_ping(), None)
        .set_times(999, 3);
    let (flow, action) = flow.step(
        FlowEvent::ReadDone {
            value: Some(fresh),
        },
        1001,
    );
    assert!(matches!(action, FlowAction::Unlock));
    assert!(!flow.refreshed);

    let (flow, action) = flow.step(FlowEvent::Unlocked, 1001);
    assert_eq!(flow.state, FlowState::Finished);
    assert!(matches!(action, FlowAction::Done { .. }));
}

#[test]
fn test_envelope_error_folding() {
    let ping = ServerPing::from_error(Error::ResolveFailed);
    assert!(!ping.is_online());
    assert_eq!(ping.error.as_deref(), Some("failed to resolve host"));
    assert_eq!(ping.status(), "offline");
    assert_eq!(ping.label(), "ping");
    // protocol fields are zero-filled
    assert_eq!(ping.host, "");
    assert_eq!(ping.port, 0);
    assert_eq!(ping.version.protocol, 0);
    assert!(ping.version.name.is_none());
    assert_eq!(ping.players.max, 0);
    assert_eq!(ping.players.online, 0);
    assert!(ping.motd.is_none());
    assert!(ping.favicon.is_none());

    let query = ServerQuery::from_error(Error::InvalidPort(80));
    assert!(!query.is_online());
    assert_eq!(query.error.as_deref(), Some("invalid port: 80"));
    assert_eq!(query.status(), "offline");
    assert_eq!(query.label(), "query");
    assert!(query.kv.is_empty());
    assert_eq!(query.server.0, "");
    assert!(query.server.1.is_empty());
    assert!(query.players.is_empty());
}

#[test]
fn test_envelope_set_times() {
    let env = ServerPing::from_ping("h".to_string(), 25565, sample_ping(), Some("hi".to_string()))
        .set_times(42, 99);
    assert_eq!(env.updated_at(), 42);
    assert_eq!(env.duration, 99);
    assert!(env.online);
    assert_eq!(env.status(), "online");
    assert_eq!(env.motd.as_deref(), Some("hi"));
}
