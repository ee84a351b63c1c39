use discretionary_engine::order_state::{OrderState, ParseOrderStateError};
use OrderState::{Accepted, Canceled, Denied, Expired, Filled, Initialized, PartiallyFilled, PendingCancel, PendingUpdate, Rejected, Submitted};

#[test]
fn classes_of_each_state() {
    let open = [Accepted, PendingUpdate, PendingCancel, PartiallyFilled];
    let in_flight = [Submitted, PendingUpdate, PendingCancel];
    let closed = [Denied, Rejected, Canceled, Expired, Filled];
    for s in OrderState::all() {
        assert_eq!(s.is_open(), open.contains(&s), "{s:?}");
        assert_eq!(s.is_in_flight(), in_flight.contains(&s), "{s:?}");
        assert_eq!(s.is_closed(), closed.contains(&s), "{s:?}");
        assert!(!(s.is_open() && s.is_closed()));
    }
    assert!(!Initialized.is_open() && !Initialized.is_closed() && !Initialized.is_in_flight());
}

#[test]
fn default_is_initialized() {
    assert_eq!(OrderState::default(), OrderState::Initialized);
}

#[test]
fn names_are_screaming_snake_case() {
    assert_eq!(OrderState::PendingUpdate.as_str(), "PENDING_UPDATE");
    assert_eq!(OrderState::PartiallyFilled.as_str(), "PARTIALLY_FILLED");
    assert_eq!(OrderState::Filled.as_str(), "FILLED");
}

#[test]
fn parsing_ignores_ascii_case() {
    assert_eq!(OrderState::from_name("pending_update"), Ok(OrderState::PendingUpdate));
    assert_eq!(OrderState::from_name("FiLlEd"), Ok(OrderState::Filled));
    assert_eq!("accepted".parse::<OrderState>(), Ok(OrderState::Accepted));
    assert_eq!(OrderState::from_name("PendingUpdate"), Err(ParseOrderStateError::VariantNotFound));
    assert_eq!(OrderState::from_name(""), Err(ParseOrderStateError::VariantNotFound));
    assert_eq!(OrderState::from_name("FILLED "), Err(ParseOrderStateError::VariantNotFound));
}

#[test]
fn names_round_trip() {
    for s in OrderState::all() {
        assert_eq!(OrderState::from_name(s.as_str()), Ok(s));
        assert_eq!(OrderState::from_name(&s.as_str().to_lowercase()), Ok(s));
    }
}

#[test]
fn discriminants_round_trip() {
    let all = OrderState::all();
    assert_eq!(all.len(), 11);
    for (i, s) in all.iter().enumerate() {
        assert_eq!(s.to_repr(), i);
        assert_eq!(OrderState::from_repr(i), Some(*s));
    }
    assert_eq!(OrderState::from_repr(11), None);
    assert_eq!(OrderState::from_repr(0), Some(OrderState::Initialized));
}

#[test]
fn ordering_follows_declaration() {
    assert!(OrderState::Initialized < OrderState::Denied);
    assert!(OrderState::PartiallyFilled < OrderState::Filled);
}
