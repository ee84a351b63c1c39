use discretionary_engine::component::{Component, ComponentState};
use discretionary_engine::routing::{Commands, Executor, InvalidRoutingError, RoutingHub};

fn s(x: &str) -> String {
    x.to_string()
}

fn ids(hub: &RoutingHub<&'static str, &'static str>, asset: &str) -> Option<Vec<u128>> {
    hub.executor(&s(asset)).map(|e| e.ids().to_vec())
}

fn sorted(mut v: Vec<String>) -> Vec<String> {
    v.sort();
    v
}

#[test]
fn new_hub_is_ready_and_empty() {
    let hub: RoutingHub<(), ()> = RoutingHub::default();
    assert_eq!(hub.state(), ComponentState::Ready);
    assert!(hub.asset_names().is_empty());
}

#[test]
fn new_limits_join_their_asset_executor() {
    let mut hub: RoutingHub<&'static str, &'static str> = RoutingHub::default();
    hub.push_command(Commands::New { asset: s("BTC"), id: 1, params: "a" });
    hub.push_command(Commands::New { asset: s("ETH"), id: 2, params: "b" });
    hub.push_command(Commands::New { asset: s("BTC"), id: 3, params: "c" });
    let out = hub.apply_commands();
    assert_eq!(out.created, vec![(s("BTC"), 1, "a"), (s("ETH"), 2, "b"), (s("BTC"), 3, "c")]);
    assert!(out.adjusted.is_empty());
    assert!(out.deleted.is_empty());
    assert!(out.removed.is_empty());
    assert_eq!(sorted(out.ticked), vec![s("BTC"), s("ETH")]);
    assert_eq!(ids(&hub, "BTC"), Some(vec![1, 3]));
    assert_eq!(ids(&hub, "ETH"), Some(vec![2]));
    assert_eq!(sorted(hub.asset_names()), vec![s("BTC"), s("ETH")]);
}

#[test]
fn adjustment_moves_the_limit_to_the_back() {
    let mut hub: RoutingHub<&'static str, &'static str> = RoutingHub::default();
    for id in 1..=4u128 {
        hub.push_command(Commands::New { asset: s("BTC"), id, params: "n" });
    }
    hub.apply_commands();
    hub.push_command(Commands::Adj { id: 2, changes: "tighter" });
    let out = hub.apply_commands();
    assert_eq!(out.adjusted, vec![(2, "tighter")]);
    assert_eq!(out.ticked, vec![s("BTC")]);
    // swap-remove puts the last limit into the gap, then the adjusted one goes last
    assert_eq!(ids(&hub, "BTC"), Some(vec![1, 4, 3, 2]));
}

#[test]
fn commands_for_unknown_limits_change_nothing() {
    let mut hub: RoutingHub<&'static str, &'static str> = RoutingHub::default();
    hub.push_command(Commands::New { asset: s("BTC"), id: 1, params: "n" });
    hub.apply_commands();
    hub.push_command(Commands::Adj { id: 9, changes: "x" });
    hub.push_command(Commands::Del { id: 8, weak: false });
    let out = hub.apply_commands();
    assert!(out.adjusted.is_empty());
    assert!(out.deleted.is_empty());
    assert!(out.ticked.is_empty());
    assert!(out.removed.is_empty());
    assert_eq!(ids(&hub, "BTC"), Some(vec![1]));
}

#[test]
fn deleting_the_last_limit_drops_the_asset() {
    let mut hub: RoutingHub<&'static str, &'static str> = RoutingHub::default();
    hub.push_command(Commands::New { asset: s("BTC"), id: 1, params: "n" });
    hub.push_command(Commands::New { asset: s("ETH"), id: 2, params: "n" });
    hub.push_command(Commands::New { asset: s("ETH"), id: 3, params: "n" });
    hub.apply_commands();
    hub.push_command(Commands::Del { id: 1, weak: false });
    hub.push_command(Commands::Del { id: 2, weak: false });
    let out = hub.apply_commands();
    assert_eq!(out.deleted, vec![1, 2]);
    assert_eq!(out.removed, vec![s("BTC")]);
    assert_eq!(out.ticked, vec![s("ETH")]);
    assert_eq!(ids(&hub, "BTC"), None);
    assert_eq!(ids(&hub, "ETH"), Some(vec![3]));
}

#[test]
fn weak_delete_yields_to_a_later_adjustment() {
    let mut hub: RoutingHub<&'static str, &'static str> = RoutingHub::default();
    hub.push_command(Commands::New { asset: s("BTC"), id: 1, params: "n" });
    hub.apply_commands();
    hub.push_command(Commands::Del { id: 1, weak: true });
    hub.push_command(Commands::Adj { id: 1, changes: "more" });
    let out = hub.apply_commands();
    assert!(out.deleted.is_empty());
    assert_eq!(out.adjusted, vec![(1, "more")]);
    assert_eq!(ids(&hub, "BTC"), Some(vec![1]));
}

#[test]
fn weak_delete_without_later_adjustment_deletes() {
    let mut hub: RoutingHub<&'static str, &'static str> = RoutingHub::default();
    hub.push_command(Commands::New { asset: s("BTC"), id: 1, params: "n" });
    hub.apply_commands();
    hub.push_command(Commands::Adj { id: 1, changes: "before" });
    hub.push_command(Commands::Del { id: 1, weak: true });
    let out = hub.apply_commands();
    assert_eq!(out.adjusted, vec![(1, "before")]);
    assert_eq!(out.deleted, vec![1]);
    assert_eq!(out.removed, vec![s("BTC")]);
    assert!(hub.asset_names().is_empty());
}

#[test]
fn strong_delete_ignores_later_adjustment() {
    let mut hub: RoutingHub<&'static str, &'static str> = RoutingHub::default();
    hub.push_command(Commands::New { asset: s("BTC"), id: 1, params: "n" });
    hub.apply_commands();
    hub.push_command(Commands::Del { id: 1, weak: false });
    hub.push_command(Commands::Adj { id: 1, changes: "late" });
    let out = hub.apply_commands();
    assert_eq!(out.deleted, vec![1]);
    assert!(out.adjusted.is_empty());
    assert_eq!(ids(&hub, "BTC"), None);
}

#[test]
fn fresh_ids_are_neither_running_nor_queued() {
    let mut hub: RoutingHub<&'static str, &'static str> = RoutingHub::default();
    hub.push_command(Commands::New { asset: s("BTC"), id: 1, params: "n" });
    assert!(!hub.is_fresh_id(1));
    assert!(hub.is_fresh_id(2));
    hub.apply_commands();
    assert!(!hub.is_fresh_id(1));
    hub.push_command(Commands::Del { id: 1, weak: false });
    hub.apply_commands();
    assert!(hub.is_fresh_id(1));
}

#[test]
fn executor_take_and_remove_by_id() {
    let mut e = Executor::default();
    assert!(e.is_empty());
    for id in [10u128, 20, 30, 40] {
        e.push(id);
    }
    assert_eq!(e.len(), 4);
    assert_eq!(e.take_by_id(20), Some(20));
    assert_eq!(e.ids(), &[10, 40, 30]);
    assert_eq!(e.take_by_id(99), None);
    assert!(e.remove_by_id(10));
    assert_eq!(e.ids(), &[30, 40]);
    assert!(!e.remove_by_id(10));
    assert!(e.remove_by_id(40));
    assert_eq!(e.ids(), &[30]);
}

#[test]
fn invalid_routing_error_message() {
    assert_eq!(
        InvalidRoutingError::AdjustmentWouldReverse.message(),
        "adjustment would reverse position (hint: submit a Del and a new New instead)"
    );
}

#[test]
fn applying_keeps_exactly_the_expected_limits() {
    let mut hub: RoutingHub<&'static str, &'static str> = RoutingHub::default();
    hub.push_command(Commands::New { asset: s("BTC"), id: 1, params: "n" });
    hub.push_command(Commands::New { asset: s("ETH"), id: 2, params: "n" });
    hub.apply_commands();
    hub.push_command(Commands::New { asset: s("SOL"), id: 3, params: "n" });
    hub.push_command(Commands::Adj { id: 2, changes: "x" });
    hub.push_command(Commands::Del { id: 1, weak: false });
    hub.push_command(Commands::New { asset: s("ETH"), id: 4, params: "n" });
    let out = hub.apply_commands();
    let created: Vec<u128> = out.created.iter().map(|c| c.1).collect();
    assert_eq!(created, vec![3, 4]);
    assert_eq!(out.deleted, vec![1]);
    let mut held: Vec<u128> = Vec::new();
    for asset in hub.asset_names() {
        held.extend_from_slice(hub.executor(&asset).unwrap().ids());
    }
    held.sort();
    // before {1, 2}, created {3, 4}, deleted {1}
    assert_eq!(held, vec![2, 3, 4]);
    assert_eq!(sorted(out.ticked), vec![s("ETH"), s("SOL")]);
    assert_eq!(out.removed, vec![s("BTC")]);
}
