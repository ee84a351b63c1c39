use discretionary_engine::risk::{enabled_risk_layers, settle_balances, BalanceOutcome, RiskError, RiskLayerKind, RiskLayersConfig};

#[test]
fn without_config_only_stop_loss_proximity() {
    assert_eq!(enabled_risk_layers(None), vec![RiskLayerKind::StopLossProximity]);
}

#[test]
fn default_config_is_stop_loss_proximity_only() {
    let c = RiskLayersConfig::default();
    assert!(c.stop_loss_proximity && !c.from_phone && !c.lost_last_trade);
    assert_eq!(enabled_risk_layers(Some(&c)), vec![RiskLayerKind::StopLossProximity]);
}

#[test]
fn layers_come_in_order() {
    let c = RiskLayersConfig { stop_loss_proximity: true, from_phone: true, lost_last_trade: true };
    assert_eq!(
        enabled_risk_layers(Some(&c)),
        vec![RiskLayerKind::FromPhone, RiskLayerKind::LostLastTrade, RiskLayerKind::StopLossProximity]
    );
    let c = RiskLayersConfig { stop_loss_proximity: false, from_phone: false, lost_last_trade: true };
    assert_eq!(enabled_risk_layers(Some(&c)), vec![RiskLayerKind::LostLastTrade]);
    let c = RiskLayersConfig { stop_loss_proximity: false, from_phone: false, lost_last_trade: false };
    assert_eq!(enabled_risk_layers(Some(&c)), vec![]);
}

#[test]
fn balances_settle_without_failed_exchanges() {
    let outcomes = vec![
        ("binance".to_string(), BalanceOutcome::Fetched(100u32)),
        ("mexc".to_string(), BalanceOutcome::Failed),
        ("bybit".to_string(), BalanceOutcome::Fetched(50u32)),
    ];
    match settle_balances(outcomes) {
        Ok(v) => assert_eq!(v, vec![("binance".to_string(), 100), ("bybit".to_string(), 50)]),
        Err(_) => panic!("expected balances"),
    }
}

#[test]
fn unauthorized_exchanges_are_named() {
    let outcomes = vec![
        ("kucoin".to_string(), BalanceOutcome::Unauthorized),
        ("binance".to_string(), BalanceOutcome::Fetched(1u32)),
        ("bybit".to_string(), BalanceOutcome::Unauthorized),
    ];
    match settle_balances(outcomes) {
        Err(RiskError::Unauthorized(msg)) => assert_eq!(msg, "Unauthorized: kucoin, bybit"),
        _ => panic!("expected an unauthorized error"),
    }
}

#[test]
fn no_exchanges_no_balances() {
    let outcomes: Vec<(String, BalanceOutcome<u32>)> = vec![];
    match settle_balances(outcomes) {
        Ok(v) => assert!(v.is_empty()),
        Err(_) => panic!("expected no balances"),
    }
}
