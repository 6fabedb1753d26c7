use nova_bridge::hub::BroadcastHub;

#[test]
fn failed_subscriber_is_pruned_and_order_kept() {
    let mut hub: BroadcastHub<u32> = BroadcastHub::new();
    hub.accept(10);
    hub.accept(20);
    hub.accept(30);
    assert_eq!(hub.len(), 3);

    // One delivery pass in which the second write failed.
    hub.prune(&vec![false, true, false]);
    assert_eq!(hub.subscribers.as_slice(), &[10, 30]);
}

#[test]
fn prune_without_failures_keeps_everyone() {
    let mut hub: BroadcastHub<&str> = BroadcastHub::new();
    hub.accept("a");
    hub.accept("b");
    hub.prune(&vec![false, false]);
    assert_eq!(hub.subscribers.as_slice(), &["a", "b"]);
}

#[test]
fn prune_with_all_failures_empties_the_hub() {
    let mut hub: BroadcastHub<u32> = BroadcastHub::new();
    hub.accept(1);
    hub.accept(2);
    hub.prune(&vec![true, true]);
    assert_eq!(hub.len(), 0);
}

#[test]
fn prune_on_empty_hub_is_a_no_op() {
    let mut hub: BroadcastHub<u32> = BroadcastHub::new();
    hub.prune(&Vec::new());
    assert_eq!(hub.len(), 0);
}
