use discretionary_engine::report::{format_eyre_chain_for_user, format_messages_for_user, unexpected_response_body};

#[test]
fn messages_are_shown_root_cause_first() {
    let messages = vec!["outer".to_string(), "middle".to_string(), "root".to_string()];
    assert_eq!(format_messages_for_user(&messages), "-> root\n-> middle\n-> outer");
    assert_eq!(format_messages_for_user(&vec!["only".to_string()]), "-> only");
    assert_eq!(format_messages_for_user(&vec![]), "");
}

#[test]
fn report_chain_is_shown_root_cause_first() {
    let report = eyre::Report::msg("connection refused").wrap_err("fetching balances").wrap_err("risk size");
    assert_eq!(format_eyre_chain_for_user(report), "-> connection refused\n-> fetching balances\n-> risk size");
}

#[test]
fn single_message_report() {
    let report = eyre::Report::msg("boom");
    assert_eq!(format_eyre_chain_for_user(report), "-> boom");
}

#[test]
fn json_response_is_pretty_printed() {
    assert_eq!(unexpected_response_body("{\"a\":1}"), "{\n  \"a\": 1\n}");
    assert_eq!(unexpected_response_body("[1,2]"), "[\n  1,\n  2\n]");
}

#[test]
fn non_json_response_is_kept() {
    assert_eq!(unexpected_response_body("<html>502</html>"), "<html>502</html>");
    assert_eq!(unexpected_response_body(""), "");
}
