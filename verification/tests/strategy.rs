use discretionary_engine::settings::{default_comparison_offset_h, default_redis_port};
use discretionary_engine::strategy::{build_cli_string, StrategyConfig};
use discretionary_engine::text::join_with;

#[test]
fn submit_command_line() {
    let opening = vec!["ts:p0.5".to_string()];
    let closing = vec!["sl:p1".to_string(), "tp:p3".to_string()];
    assert_eq!(
        build_cli_string("100", "BTC", &opening, &closing, true),
        "--testnet submit -s 100 -c BTC -a ts:p0.5 -f sl:p1 -f tp:p3"
    );
    assert_eq!(build_cli_string("-2.5", "ETH", &vec![], &vec![], false), "submit -s -2.5 -c ETH");
}

#[test]
fn strategy_config_default() {
    assert_eq!(StrategyConfig::default(), StrategyConfig {});
}

#[test]
fn settings_defaults() {
    assert_eq!(default_comparison_offset_h(), 24);
    assert_eq!(default_redis_port(), 6379);
}

#[test]
fn joining() {
    let parts = vec!["a".to_string(), "b".to_string(), "c".to_string()];
    assert_eq!(join_with(&parts, ", "), "a, b, c");
    assert_eq!(join_with(&vec![], ", "), "");
}
