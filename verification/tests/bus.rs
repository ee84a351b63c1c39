use discretionary_engine::bus::{
    consumer_is_alive, failure_limit_reached, has_live_consumer, is_busygroup, ReplyField, CONSUMER_ALIVE_THRESHOLD_MS,
    MAX_CONNECTION_FAILURES, ROUTING_CONSUMER_GROUP, ROUTING_STREAM_KEY, STRATEGY_CONSUMER_GROUP, STRATEGY_STREAM_KEY,
};

fn text(t: &str) -> ReplyField {
    ReplyField { bulk: Some(t.as_bytes().to_vec()), as_int: t.parse().ok() }
}

fn num(v: i64) -> ReplyField {
    ReplyField { bulk: None, as_int: Some(v) }
}

#[test]
fn consumer_alive_when_recently_idle() {
    let fields = vec![text("name"), text("routing-1"), text("pending"), num(0), text("idle"), num(500)];
    assert!(consumer_is_alive(&fields));
}

#[test]
fn consumer_dead_when_idle_too_long() {
    let fields = vec![text("name"), text("x"), text("idle"), num(CONSUMER_ALIVE_THRESHOLD_MS)];
    assert!(!consumer_is_alive(&fields));
    let fields = vec![text("idle"), num(9_999)];
    assert!(consumer_is_alive(&fields));
}

#[test]
fn unreadable_idle_counts_as_dead() {
    let fields = vec![text("idle"), text("soon")];
    assert!(!consumer_is_alive(&fields));
}

#[test]
fn idle_key_without_value_is_dead() {
    assert!(!consumer_is_alive(&vec![text("name"), text("idle")]));
    assert!(!consumer_is_alive(&vec![]));
}

#[test]
fn only_the_first_idle_key_counts() {
    let fields = vec![text("idle"), num(20_000), text("idle"), num(1)];
    assert!(!consumer_is_alive(&fields));
}

#[test]
fn reply_with_some_live_consumer() {
    let dead = Some(vec![text("idle"), num(50_000)]);
    let alive = Some(vec![text("idle"), num(10)]);
    assert!(has_live_consumer(&Some(vec![None, dead.clone_fields(), alive])));
    assert!(!has_live_consumer(&Some(vec![dead.clone_fields(), None])));
    assert!(!has_live_consumer(&Some(vec![])));
    assert!(!has_live_consumer(&None));
}

trait CloneFields {
    fn clone_fields(&self) -> Self;
}

impl CloneFields for Option<Vec<ReplyField>> {
    fn clone_fields(&self) -> Self {
        self.as_ref().map(|v| v.iter().map(|f| ReplyField { bulk: f.bulk.clone(), as_int: f.as_int }).collect())
    }
}

#[test]
fn busygroup_is_recognized() {
    assert!(is_busygroup("BUSYGROUP Consumer Group name already exists"));
    assert!(is_busygroup("An error was signalled by the server - ResponseError: BUSYGROUP"));
    assert!(!is_busygroup("ERR no such key"));
    assert!(!is_busygroup("busygroup"));
    assert!(!is_busygroup(""));
}

#[test]
fn connection_failure_limit() {
    assert_eq!(MAX_CONNECTION_FAILURES, 10);
    assert!(!failure_limit_reached(0));
    assert!(!failure_limit_reached(8));
    assert!(failure_limit_reached(9));
    assert!(failure_limit_reached(u32::MAX));
}

#[test]
fn stream_names() {
    assert_eq!(ROUTING_STREAM_KEY, "discretionary_engine:routing:commands");
    assert_eq!(ROUTING_CONSUMER_GROUP, "routing_consumers");
    assert_eq!(STRATEGY_STREAM_KEY, "discretionary_engine:strategy:commands");
    assert_eq!(STRATEGY_CONSUMER_GROUP, "strategy_consumers");
}
