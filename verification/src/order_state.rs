//! Lifecycle state of an order on the venue.
use vstd::prelude::*;

verus! {

/// Lifecycle state of an order on the venue.
///
/// An order is considered _open_ for `Accepted`, `PendingUpdate`, `PendingCancel`
/// and `PartiallyFilled` (`Triggered` is left out on purpose: only plain limit
/// orders are placed).
///
/// An order is considered _in-flight_ for `Submitted`, `PendingUpdate` and `PendingCancel`.
///
/// An order is considered _closed_ for `Denied`, `Rejected`, `Canceled`, `Expired` and `Filled`.
#[derive(Clone, Copy, Debug, PartialEq, Eq, Hash, PartialOrd, Ord, Structural)]
pub enum OrderState {
    /// The order is initialized within the system but not yet submitted.
    Initialized,
    /// The order was denied before reaching the venue.
    Denied,
    /// The order was submitted to the venue (awaiting acknowledgement).
    Submitted,
    /// The order was acknowledged by the venue as valid.
    Accepted,
    /// The order was rejected by the venue.
    Rejected,
    /// The order was canceled.
    Canceled,
    /// The order reached GTD expiration.
    Expired,
    /// The order is pending a modify request on the venue.
    PendingUpdate,
    /// The order is pending a cancel request on the venue.
    PendingCancel,
    /// The order has been partially filled.
    PartiallyFilled,
    /// The order has been completely filled.
    Filled,
}

/// The number of order states.
pub const ORDER_STATE_COUNT: usize = 11;

/// Error of parsing an order state from its name.
#[derive(Clone, Copy, Debug, PartialEq, Eq, Structural)]
pub enum ParseOrderStateError {
    /// No state has this name.
    VariantNotFound,
}

impl Default for OrderState {
    fn default() -> (r: OrderState)
        ensures
            r == OrderState::Initialized,
    {
        OrderState::Initialized
    }
}

impl OrderState {
    pub open spec fn spec_is_open(self) -> bool {
        self == OrderState::Accepted || self == OrderState::PendingUpdate || self == OrderState::PendingCancel
            || self == OrderState::PartiallyFilled
    }

    pub open spec fn spec_is_in_flight(self) -> bool {
        self == OrderState::Submitted || self == OrderState::PendingUpdate || self == OrderState::PendingCancel
    }

    pub open spec fn spec_is_closed(self) -> bool {
        self == OrderState::Denied || self == OrderState::Rejected || self == OrderState::Canceled
            || self == OrderState::Expired || self == OrderState::Filled
    }

    /// Whether the order stands on the venue's book.
    pub fn is_open(self) -> (r: bool)
        ensures
            r == self.spec_is_open(),
    {
        match self {
            OrderState::Accepted | OrderState::PendingUpdate | OrderState::PendingCancel
            | OrderState::PartiallyFilled => true,
            _ => false,
        }
    }

    /// Whether a request about the order awaits the venue's answer.
    pub fn is_in_flight(self) -> (r: bool)
        ensures
            r == self.spec_is_in_flight(),
    {
        match self {
            OrderState::Submitted | OrderState::PendingUpdate | OrderState::PendingCancel => true,
            _ => false,
        }
    }

    /// Whether the order has reached a final state.
    pub fn is_closed(self) -> (r: bool)
        ensures
            r == self.spec_is_closed(),
    {
        match self {
            OrderState::Denied | OrderState::Rejected | OrderState::Canceled | OrderState::Expired
            | OrderState::Filled => true,
            _ => false,
        }
    }

    /// The state's position in declaration order.
    pub open spec fn position(self) -> int {
        match self {
            OrderState::Initialized => 0,
            OrderState::Denied => 1,
            OrderState::Submitted => 2,
            OrderState::Accepted => 3,
            OrderState::Rejected => 4,
            OrderState::Canceled => 5,
            OrderState::Expired => 6,
            OrderState::PendingUpdate => 7,
            OrderState::PendingCancel => 8,
            OrderState::PartiallyFilled => 9,
            OrderState::Filled => 10,
        }
    }

    /// The state at position `i` of declaration order, where there is one.
    pub open spec fn at_position(i: int) -> Option<OrderState> {
        if i == 0 {
            Some(OrderState::Initialized)
        } else if i == 1 {
            Some(OrderState::Denied)
        } else if i == 2 {
            Some(OrderState::Submitted)
        } else if i == 3 {
            Some(OrderState::Accepted)
        } else if i == 4 {
            Some(OrderState::Rejected)
        } else if i == 5 {
            Some(OrderState::Canceled)
        } else if i == 6 {
            Some(OrderState::Expired)
        } else if i == 7 {
            Some(OrderState::PendingUpdate)
        } else if i == 8 {
            Some(OrderState::PendingCancel)
        } else if i == 9 {
            Some(OrderState::PartiallyFilled)
        } else if i == 10 {
            Some(OrderState::Filled)
        } else {
            None
        }
    }

    /// The state's discriminant.
    pub fn to_repr(self) -> (r: usize)
        ensures
            r == self.position(),
    {
        match self {
            OrderState::Initialized => 0,
            OrderState::Denied => 1,
            OrderState::Submitted => 2,
            OrderState::Accepted => 3,
            OrderState::Rejected => 4,
            OrderState::Canceled => 5,
            OrderState::Expired => 6,
            OrderState::PendingUpdate => 7,
            OrderState::PendingCancel => 8,
            OrderState::PartiallyFilled => 9,
            OrderState::Filled => 10,
        }
    }

    /// The state with discriminant `discriminant`, where there is one.
    pub fn from_repr(discriminant: usize) -> (r: Option<OrderState>)
        ensures
            r == OrderState::at_position(discriminant as int),
    {
        match discriminant {
            0 => Some(OrderState::Initialized),
            1 => Some(OrderState::Denied),
            2 => Some(OrderState::Submitted),
            3 => Some(OrderState::Accepted),
            4 => Some(OrderState::Rejected),
            5 => Some(OrderState::Canceled),
            6 => Some(OrderState::Expired),
            7 => Some(OrderState::PendingUpdate),
            8 => Some(OrderState::PendingCancel),
            9 => Some(OrderState::PartiallyFilled),
            10 => Some(OrderState::Filled),
            _ => None,
        }
    }

    /// Every state, in declaration order.
    pub fn all() -> (r: Vec<OrderState>)
        ensures
            r@.len() == ORDER_STATE_COUNT,
            forall|i: int| 0 <= i < ORDER_STATE_COUNT ==> Some(#[trigger] r@[i]) == OrderState::at_position(i),
    {
        let mut v: Vec<OrderState> = Vec::new();
        v.push(OrderState::Initialized);
        v.push(OrderState::Denied);
        v.push(OrderState::Submitted);
        v.push(OrderState::Accepted);
        v.push(OrderState::Rejected);
        v.push(OrderState::Canceled);
        v.push(OrderState::Expired);
        v.push(OrderState::PendingUpdate);
        v.push(OrderState::PendingCancel);
        v.push(OrderState::PartiallyFilled);
        v.push(OrderState::Filled);
        v
    }

    /// The state's name, in SCREAMING_SNAKE_CASE.
    pub open spec fn spec_name(self) -> Seq<char> {
        match self {
            OrderState::Initialized => "INITIALIZED"@,
            OrderState::Denied => "DENIED"@,
            OrderState::Submitted => "SUBMITTED"@,
            OrderState::Accepted => "ACCEPTED"@,
            OrderState::Rejected => "REJECTED"@,
            OrderState::Canceled => "CANCELED"@,
            OrderState::Expired => "EXPIRED"@,
            OrderState::PendingUpdate => "PENDING_UPDATE"@,
            OrderState::PendingCancel => "PENDING_CANCEL"@,
            OrderState::PartiallyFilled => "PARTIALLY_FILLED"@,
            OrderState::Filled => "FILLED"@,
        }
    }

    /// The state's name, in SCREAMING_SNAKE_CASE; this is also how it is displayed.
    pub fn as_str(self) -> (r: &'static str)
        ensures
            r@ == self.spec_name(),
    {
        match self {
            OrderState::Initialized => "INITIALIZED",
            OrderState::Denied => "DENIED",
            OrderState::Submitted => "SUBMITTED",
            OrderState::Accepted => "ACCEPTED",
            OrderState::Rejected => "REJECTED",
            OrderState::Canceled => "CANCELED",
            OrderState::Expired => "EXPIRED",
            OrderState::PendingUpdate => "PENDING_UPDATE",
            OrderState::PendingCancel => "PENDING_CANCEL",
            OrderState::PartiallyFilled => "PARTIALLY_FILLED",
            OrderState::Filled => "FILLED",
        }
    }

    /// The state whose name equals `text` up to ASCII case, where there is one.
    pub open spec fn named(text: Seq<char>) -> Option<OrderState> {
        if eq_ignore_ascii_case(text, "INITIALIZED"@) {
            Some(OrderState::Initialized)
        } else if eq_ignore_ascii_case(text, "DENIED"@) {
            Some(OrderState::Denied)
        } else if eq_ignore_ascii_case(text, "SUBMITTED"@) {
            Some(OrderState::Submitted)
        } else if eq_ignore_ascii_case(text, "ACCEPTED"@) {
            Some(OrderState::Accepted)
        } else if eq_ignore_ascii_case(text, "REJECTED"@) {
            Some(OrderState::Rejected)
        } else if eq_ignore_ascii_case(text, "CANCELED"@) {
            Some(OrderState::Canceled)
        } else if eq_ignore_ascii_case(text, "EXPIRED"@) {
            Some(OrderState::Expired)
        } else if eq_ignore_ascii_case(text, "PENDING_UPDATE"@) {
            Some(OrderState::PendingUpdate)
        } else if eq_ignore_ascii_case(text, "PENDING_CANCEL"@) {
            Some(OrderState::PendingCancel)
        } else if eq_ignore_ascii_case(text, "PARTIALLY_FILLED"@) {
            Some(OrderState::PartiallyFilled)
        } else if eq_ignore_ascii_case(text, "FILLED"@) {
            Some(OrderState::Filled)
        } else {
            None
        }
    }

    /// Parses a state from its name, ignoring ASCII case.
    pub fn from_name(text: &str) -> (r: Result<OrderState, ParseOrderStateError>)
        ensures
            match OrderState::named(text@) {
                Some(s) => r == Ok::<OrderState, ParseOrderStateError>(s),
                None => r == Err::<OrderState, ParseOrderStateError>(ParseOrderStateError::VariantNotFound),
            },
    {
        if str_eq_ignore_ascii_case(text, "INITIALIZED") {
            Ok(OrderState::Initialized)
        } else if str_eq_ignore_ascii_case(text, "DENIED") {
            Ok(OrderState::Denied)
        } else if str_eq_ignore_ascii_case(text, "SUBMITTED") {
            Ok(OrderState::Submitted)
        } else if str_eq_ignore_ascii_case(text, "ACCEPTED") {
            Ok(OrderState::Accepted)
        } else if str_eq_ignore_ascii_case(text, "REJECTED") {
            Ok(OrderState::Rejected)
        } else if str_eq_ignore_ascii_case(text, "CANCELED") {
            Ok(OrderState::Canceled)
        } else if str_eq_ignore_ascii_case(text, "EXPIRED") {
            Ok(OrderState::Expired)
        } else if str_eq_ignore_ascii_case(text, "PENDING_UPDATE") {
            Ok(OrderState::PendingUpdate)
        } else if str_eq_ignore_ascii_case(text, "PENDING_CANCEL") {
            Ok(OrderState::PendingCancel)
        } else if str_eq_ignore_ascii_case(text, "PARTIALLY_FILLED") {
            Ok(OrderState::PartiallyFilled)
        } else if str_eq_ignore_ascii_case(text, "FILLED") {
            Ok(OrderState::Filled)
        } else {
            Err(ParseOrderStateError::VariantNotFound)
        }
    }
}

/// The code of `c` with ASCII upper-case letters mapped to lower case.
pub open spec fn ascii_folded(c: char) -> u32 {
    if 'A' <= c && c <= 'Z' {
        (c as u32 + 32) as u32
    } else {
        c as u32
    }
}

/// Whether `a` and `b` are equal up to ASCII case.
pub open spec fn eq_ignore_ascii_case(a: Seq<char>, b: Seq<char>) -> bool {
    a.len() == b.len() && forall|i: int| 0 <= i < a.len() ==> ascii_folded(#[trigger] a[i]) == ascii_folded(b[i])
}

fn fold_char(c: char) -> (r: u32)
    ensures
        r == ascii_folded(c),
{
    if 'A' <= c && c <= 'Z' {
        c as u32 + 32
    } else {
        c as u32
    }
}

/// Whether `a` and `b` are equal up to ASCII case.
fn str_eq_ignore_ascii_case(a: &str, b: &str) -> (r: bool)
    ensures
        r == eq_ignore_ascii_case(a@, b@),
{
    let n = a.unicode_len();
    if n != b.unicode_len() {
        return false;
    }
    let mut i: usize = 0;
    while i < n
        invariant
            n == a@.len(),
            n == b@.len(),
            i <= n,
            forall|j: int| 0 <= j < i ==> ascii_folded(#[trigger] a@[j]) == ascii_folded(b@[j]),
        decreases n - i,
    {
        if fold_char(a.get_char(i)) != fold_char(b.get_char(i)) {
            return false;
        }
        i = i + 1;
    }
    true
}

impl core::str::FromStr for OrderState {
    type Err = ParseOrderStateError;

    fn from_str(s: &str) -> (r: Result<OrderState, ParseOrderStateError>)
        ensures
            match OrderState::named(s@) {
                Some(st) => r == Ok::<OrderState, ParseOrderStateError>(st),
                None => r == Err::<OrderState, ParseOrderStateError>(ParseOrderStateError::VariantNotFound),
            },
    {
        OrderState::from_name(s)
    }
}


/// The three classes of the documentation: no state is both open and closed,
/// none is both in flight and closed, and the only states that are neither
/// open nor closed are `Initialized` and `Submitted`.
pub proof fn order_state_classes(s: OrderState)
    ensures
        !(s.spec_is_open() && s.spec_is_closed()),
        !(s.spec_is_in_flight() && s.spec_is_closed()),
        !s.spec_is_open() && !s.spec_is_closed() <==> (s == OrderState::Initialized || s == OrderState::Submitted),
{
}

/// A state's discriminant gives the state back.
pub proof fn repr_round_trip(s: OrderState)
    ensures
        OrderState::at_position(s.position()) == Some(s),
        0 <= s.position() < ORDER_STATE_COUNT,
{
}


/// Each state is named by its variant name in SCREAMING_SNAKE_CASE.
pub proof fn names_are_screaming_snake_case_variants(s: OrderState)
    ensures
        match s {
            OrderState::Initialized => s.spec_name() == "INITIALIZED"@,
            OrderState::Denied => s.spec_name() == "DENIED"@,
            OrderState::Submitted => s.spec_name() == "SUBMITTED"@,
            OrderState::Accepted => s.spec_name() == "ACCEPTED"@,
            OrderState::Rejected => s.spec_name() == "REJECTED"@,
            OrderState::Canceled => s.spec_name() == "CANCELED"@,
            OrderState::Expired => s.spec_name() == "EXPIRED"@,
            OrderState::PendingUpdate => s.spec_name() == "PENDING_UPDATE"@,
            OrderState::PendingCancel => s.spec_name() == "PENDING_CANCEL"@,
            OrderState::PartiallyFilled => s.spec_name() == "PARTIALLY_FILLED"@,
            OrderState::Filled => s.spec_name() == "FILLED"@,
        },
{
}

/// Parsing ignores ASCII case: any text equal to a state's name up to ASCII
/// case parses to that state, and to no other.
pub proof fn parsing_any_case_of_a_name(s: OrderState, text: Seq<char>)
    requires
        eq_ignore_ascii_case(text, s.spec_name()),
    ensures
        OrderState::named(text) == Some(s),
{
    name_round_trip(s);
    assert forall|n: Seq<char>| eq_ignore_ascii_case(text, n) implies eq_ignore_ascii_case(s.spec_name(), n) by {
        assert forall|i: int| 0 <= i < s.spec_name().len() implies ascii_folded(#[trigger] s.spec_name()[i]) == ascii_folded(n[i]) by {
            assert(ascii_folded(text[i]) == ascii_folded(s.spec_name()[i]));
        }
    }
    assert forall|n: Seq<char>| eq_ignore_ascii_case(s.spec_name(), n) implies eq_ignore_ascii_case(text, n) by {
        assert forall|i: int| 0 <= i < text.len() implies ascii_folded(#[trigger] text[i]) == ascii_folded(n[i]) by {
            assert(ascii_folded(text[i]) == ascii_folded(s.spec_name()[i]));
        }
    }
}

/// A state's name parses back to the state.
pub proof fn name_round_trip(s: OrderState)
    ensures
        OrderState::named(s.spec_name()) == Some(s),
{
    reveal_strlit("INITIALIZED");
    reveal_strlit("DENIED");
    reveal_strlit("SUBMITTED");
    reveal_strlit("ACCEPTED");
    reveal_strlit("REJECTED");
    reveal_strlit("CANCELED");
    reveal_strlit("EXPIRED");
    reveal_strlit("PENDING_UPDATE");
    reveal_strlit("PENDING_CANCEL");
    reveal_strlit("PARTIALLY_FILLED");
    reveal_strlit("FILLED");
    // names of equal length differ in a letter
    assert(ascii_folded("DENIED"@[0]) != ascii_folded("FILLED"@[0]));
    assert(ascii_folded("ACCEPTED"@[0]) != ascii_folded("REJECTED"@[0]));
    assert(ascii_folded("ACCEPTED"@[0]) != ascii_folded("CANCELED"@[0]));
    assert(ascii_folded("REJECTED"@[0]) != ascii_folded("CANCELED"@[0]));
    assert(ascii_folded("PENDING_UPDATE"@[8]) != ascii_folded("PENDING_CANCEL"@[8]));
}

} // verus!
