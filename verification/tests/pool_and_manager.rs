use localtunnel::manager::TunnelManager;
use localtunnel::pool::{AcceptOutcome, AgentPool, TakeOutcome};

#[test]
fn pool_is_fifo_and_bounded() {
    let mut pool = AgentPool::new(2);
    assert_eq!(pool.accept(), AcceptOutcome::Enqueued(0));
    assert_eq!(pool.accept(), AcceptOutcome::Enqueued(1));
    // The pool is at capacity: the next agent socket is rejected and closed.
    assert_eq!(pool.accept(), AcceptOutcome::Rejected);

    // Oldest waiting socket serves the next user.
    assert_eq!(pool.take(), TakeOutcome::Taken(0));
    assert_eq!(pool.take(), TakeOutcome::Taken(1));
    // Nothing is waiting: the caller waits up to its deadline, then times out.
    assert_eq!(pool.take(), TakeOutcome::Empty);

    // Both taken sockets count as paired; capacity still binds accepts.
    let stats = pool.stats();
    assert_eq!(stats.waiting, 0);
    assert_eq!(stats.paired, 2);
    assert_eq!(stats.capacity, 2);
    assert_eq!(pool.accept(), AcceptOutcome::Rejected);

    // Completing a pairing frees a slot.
    assert!(pool.complete(0));
    assert!(!pool.complete(0));
    assert_eq!(pool.accept(), AcceptOutcome::Enqueued(2));
}

#[test]
fn pool_discard_and_shutdown() {
    let mut pool = AgentPool::new(3);
    assert_eq!(pool.accept(), AcceptOutcome::Enqueued(0));
    assert_eq!(pool.accept(), AcceptOutcome::Enqueued(1));
    assert!(pool.discard_waiting(0));
    assert!(!pool.discard_waiting(0));
    assert_eq!(pool.take(), TakeOutcome::Taken(1));

    let drained = pool.shutdown();
    assert!(drained.is_empty());
    assert_eq!(pool.take(), TakeOutcome::TunnelGone);
    // The paired socket survives shutdown until its pairing completes.
    assert_eq!(pool.stats().paired, 1);
    assert!(pool.complete(1));
    assert_eq!(pool.stats().paired, 0);
}

#[test]
fn manager_put_get_remove() {
    let mut manager = TunnelManager::new();
    let (id, port) = manager.put("demo", "randomxy".to_string(), 40001, 4, 100);
    assert_eq!(id, "demo");
    assert_eq!(port, 40001);
    assert_eq!(manager.count(), 1);

    // Reuse keeps the port and does not grow the registry.
    let (id2, port2) = manager.put("demo", "randomxz".to_string(), 40002, 4, 200);
    assert_eq!(id2, "demo");
    assert_eq!(port2, 40001);
    assert_eq!(manager.count(), 1);

    let tunnel = manager.get("demo").unwrap();
    assert_eq!(tunnel.port, 40001);
    assert_eq!(tunnel.last_activity, 200);
    assert!(manager.get("absent").is_none());

    let removed = manager.remove("demo").unwrap();
    assert_eq!(removed.port, 40001);
    assert_eq!(manager.count(), 0);
    assert!(manager.remove("demo").is_none());
}

#[test]
fn manager_sentinel_uses_random_label() {
    let mut manager = TunnelManager::new();
    let (id, port) = manager.put("?new", "randomxy".to_string(), 40001, 4, 0);
    assert_eq!(id, "randomxy");
    assert_eq!(port, 40001);
    assert!(manager.get("randomxy").is_some());
}

#[test]
fn manager_drives_pools() {
    let mut manager = TunnelManager::new();
    let _ = manager.put("demo", "randomxy".to_string(), 40001, 2, 0);

    assert!(manager.accept_agent("absent").is_none());
    assert_eq!(
        manager.accept_agent("demo").unwrap(),
        AcceptOutcome::Enqueued(0)
    );
    assert_eq!(
        manager.accept_agent("demo").unwrap(),
        AcceptOutcome::Enqueued(1)
    );
    assert_eq!(manager.accept_agent("demo").unwrap(), AcceptOutcome::Rejected);

    assert_eq!(manager.take_agent("demo").unwrap(), TakeOutcome::Taken(0));
    assert!(manager.take_agent("absent").is_none());

    let st = localtunnel::api::api_tunnel_status(&manager, "demo").unwrap();
    assert_eq!(st.connected_sockets, 1);

    assert!(manager.complete_agent("demo", 0));
    assert!(!manager.complete_agent("demo", 0));
    assert!(!manager.complete_agent("absent", 0));
    let st = localtunnel::api::api_tunnel_status(&manager, "demo").unwrap();
    assert_eq!(st.connected_sockets, 0);
}

#[test]
fn reap_removes_only_idle_unpaired_tunnels() {
    let mut manager = TunnelManager::new();
    let _ = manager.put("idle", "randomxa".to_string(), 40001, 2, 0);
    let _ = manager.put("busy", "randomxb".to_string(), 40002, 2, 0);
    let _ = manager.put("fresh", "randomxc".to_string(), 40003, 2, 590);

    // Give the busy tunnel a paired socket.
    let _ = manager.accept_agent("busy");
    let _ = manager.take_agent("busy");

    let reaped = manager.reap_idle(700, 600);
    assert_eq!(reaped.len(), 1);
    assert_eq!(reaped[0].subdomain, "idle");
    assert!(manager.get("idle").is_none());
    assert!(manager.get("busy").is_some());
    assert!(manager.get("fresh").is_some());
}
