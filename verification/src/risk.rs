//! Risk bookkeeping: which risk layers apply to a sizing, and how balances
//! fetched from several exchanges are settled.
use vstd::prelude::*;

use crate::text::{join_with, joined, views};

verus! {

/// Which risk layers apply to a position sizing.
#[derive(Clone, Copy, Debug, PartialEq, Eq, Structural)]
pub struct RiskLayersConfig {
    /// Scale risk by how fast price usually travels to the stop loss.
    pub stop_loss_proximity: bool,
    /// The trade is placed from a phone: one tier down.
    pub from_phone: bool,
    /// The last trade was lost: one tier down.
    pub lost_last_trade: bool,
}

impl Default for RiskLayersConfig {
    fn default() -> (c: RiskLayersConfig)
        ensures
            c.stop_loss_proximity,
            !c.from_phone,
            !c.lost_last_trade,
    {
        RiskLayersConfig { stop_loss_proximity: true, from_phone: false, lost_last_trade: false }
    }
}

/// A risk layer, by kind.
#[derive(Clone, Copy, Debug, PartialEq, Eq, Structural)]
pub enum RiskLayerKind {
    FromPhone,
    LostLastTrade,
    StopLossProximity,
}

/// The layers that apply, in the order they are applied: from-phone, then
/// lost-last-trade, then stop-loss proximity. Without a configuration only
/// stop-loss proximity applies.
pub open spec fn layers_for(config: Option<RiskLayersConfig>) -> Seq<RiskLayerKind> {
    let (phone, lost, proximity) = match config {
        Some(c) => (c.from_phone, c.lost_last_trade, c.stop_loss_proximity),
        None => (false, false, true),
    };
    (if phone { seq![RiskLayerKind::FromPhone] } else { Seq::empty() })
        + (if lost { seq![RiskLayerKind::LostLastTrade] } else { Seq::empty() })
        + (if proximity { seq![RiskLayerKind::StopLossProximity] } else { Seq::empty() })
}

/// Position of a layer kind in the order in which layers are applied.
pub open spec fn application_rank(k: RiskLayerKind) -> int {
    match k {
        RiskLayerKind::FromPhone => 0,
        RiskLayerKind::LostLastTrade => 1,
        RiskLayerKind::StopLossProximity => 2,
    }
}

/// Each layer applies exactly when its own flag is set, independently of the
/// others: from-phone and lost-last-trade only when asked for, stop-loss
/// proximity unless switched off (also without a configuration). Each applies
/// at most once, from-phone before lost-last-trade before stop-loss proximity.
pub proof fn each_layer_follows_its_own_flag(config: Option<RiskLayersConfig>)
    ensures
        layers_for(config).contains(RiskLayerKind::FromPhone) <==> (config matches Some(c) && c.from_phone),
        layers_for(config).contains(RiskLayerKind::LostLastTrade) <==> (config matches Some(c) && c.lost_last_trade),
        layers_for(config).contains(RiskLayerKind::StopLossProximity) <==> (config is None || (config matches Some(c)
            && c.stop_loss_proximity)),
        forall|i: int, j: int|
            0 <= i < j < layers_for(config).len() ==> application_rank(#[trigger] layers_for(config)[i]) < application_rank(
                #[trigger] layers_for(config)[j],
            ),
{
    let l = layers_for(config);
    let (phone, lost, proximity) = match config {
        Some(c) => (c.from_phone, c.lost_last_trade, c.stop_loss_proximity),
        None => (false, false, true),
    };
    let first = if phone { seq![RiskLayerKind::FromPhone] } else { Seq::<RiskLayerKind>::empty() };
    let second = if lost { seq![RiskLayerKind::LostLastTrade] } else { Seq::<RiskLayerKind>::empty() };
    let third = if proximity { seq![RiskLayerKind::StopLossProximity] } else { Seq::<RiskLayerKind>::empty() };
    assert(l =~= first + second + third);
    let kinds = seq![RiskLayerKind::FromPhone, RiskLayerKind::LostLastTrade, RiskLayerKind::StopLossProximity];
    assert forall|k: RiskLayerKind| #[trigger] l.contains(k) <==> ((k == RiskLayerKind::FromPhone && phone) || (k
        == RiskLayerKind::LostLastTrade && lost) || (k == RiskLayerKind::StopLossProximity && proximity)) by {
        if l.contains(k) {
            let i = choose|i: int| 0 <= i < l.len() && l[i] == k;
        }
        if k == RiskLayerKind::FromPhone && phone {
            assert(l[0] == k);
        }
        if k == RiskLayerKind::LostLastTrade && lost {
            assert(l[first.len() as int] == k);
        }
        if k == RiskLayerKind::StopLossProximity && proximity {
            assert(l[(first.len() + second.len()) as int] == k);
        }
    }
    assert(l.contains(RiskLayerKind::FromPhone) <==> phone);
    assert(l.contains(RiskLayerKind::LostLastTrade) <==> lost);
    assert(l.contains(RiskLayerKind::StopLossProximity) <==> proximity);
}

/// The risk layers that apply under `config`, in the order they are applied.
pub fn enabled_risk_layers(config: Option<&RiskLayersConfig>) -> (layers: Vec<RiskLayerKind>)
    ensures
        layers@ == layers_for(
            match config {
                Some(c) => Some(*c),
                None => None,
            },
        ),
{
    let (phone, lost, proximity) = match config {
        Some(c) => (c.from_phone, c.lost_last_trade, c.stop_loss_proximity),
        None => (false, false, true),
    };
    let mut layers: Vec<RiskLayerKind> = Vec::new();
    if phone {
        layers.push(RiskLayerKind::FromPhone);
    }
    if lost {
        layers.push(RiskLayerKind::LostLastTrade);
    }
    if proximity {
        layers.push(RiskLayerKind::StopLossProximity);
    }
    let ghost first = if phone { seq![RiskLayerKind::FromPhone] } else { Seq::<RiskLayerKind>::empty() };
    let ghost second = if lost { seq![RiskLayerKind::LostLastTrade] } else { Seq::<RiskLayerKind>::empty() };
    let ghost third = if proximity { seq![RiskLayerKind::StopLossProximity] } else { Seq::<RiskLayerKind>::empty() };
    assert(layers@ =~= first + second + third);
    layers
}

/// What asking one exchange for its balance gave.
pub enum BalanceOutcome<T> {
    /// The exchange's total balance.
    Fetched(T),
    /// The exchange refused the credentials.
    Unauthorized,
    /// Any other failure; the exchange is left out.
    Failed,
}

/// Error of settling balances.
pub enum RiskError {
    /// Some exchanges refused the credentials; the message names them.
    Unauthorized(String),
    Other(eyre::Report),
}

/// The names of the exchanges that refused the credentials, in order.
pub open spec fn unauthorized_names<T>(outcomes: Seq<(String, BalanceOutcome<T>)>) -> Seq<Seq<char>>
    decreases outcomes.len(),
{
    if outcomes.len() == 0 {
        Seq::empty()
    } else {
        let rest = unauthorized_names(outcomes.drop_last());
        match outcomes.last().1 {
            BalanceOutcome::Unauthorized => rest.push(outcomes.last().0@),
            _ => rest,
        }
    }
}

/// The balances fetched, by exchange name, in order.
pub open spec fn fetched_balances<T>(outcomes: Seq<(String, BalanceOutcome<T>)>) -> Seq<(String, T)>
    decreases outcomes.len(),
{
    if outcomes.len() == 0 {
        Seq::empty()
    } else {
        let rest = fetched_balances(outcomes.drop_last());
        match outcomes.last().1 {
            BalanceOutcome::Fetched(b) => rest.push((outcomes.last().0, b)),
            _ => rest,
        }
    }
}

/// Settles the per-exchange outcomes of a balance collection: where any
/// exchange refused the credentials, an `Unauthorized` error that names them
/// all ("Unauthorized: a, b"); otherwise the balances fetched, the failed
/// exchanges left out.
pub fn settle_balances<T>(outcomes: Vec<(String, BalanceOutcome<T>)>) -> (r: Result<Vec<(String, T)>, RiskError>)
    ensures
        unauthorized_names(outcomes@).len() > 0 ==> (r matches Err(RiskError::Unauthorized(msg))
            && msg@ == "Unauthorized: "@ + joined(unauthorized_names(outcomes@), ", "@)),
        unauthorized_names(outcomes@).len() == 0 ==> (r matches Ok(v) && v@ == fetched_balances(outcomes@)),
{
    let ghost all = outcomes@;
    let ghost n = all.len();
    let mut outcomes = outcomes;
    // the outcomes still to go through, the next one last
    let mut pending: Vec<(String, BalanceOutcome<T>)> = Vec::new();
    while outcomes.len() > 0
        invariant
            n == all.len(),
            outcomes@.len() <= n,
            outcomes@ == all.subrange(0, outcomes@.len() as int),
            pending@.len() == n - outcomes@.len(),
            forall|k: int| 0 <= k < pending@.len() ==> #[trigger] pending@[k] == all[n - 1 - k],
        decreases outcomes@.len(),
    {
        let o = outcomes.pop().unwrap();
        pending.push(o);
    }
    let mut balances: Vec<(String, T)> = Vec::new();
    let mut unauthorized: Vec<String> = Vec::new();
    let ghost mut i: int = 0;
    while pending.len() > 0
        invariant
            n == all.len(),
            0 <= i <= n,
            pending@.len() == n - i,
            forall|k: int| 0 <= k < pending@.len() ==> #[trigger] pending@[k] == all[n - 1 - k],
            balances@ == fetched_balances(all.take(i)),
            views(unauthorized@) == unauthorized_names(all.take(i)),
        decreases pending@.len(),
    {
        let (name, outcome) = pending.pop().unwrap();
        assert(all.take(i + 1).drop_last() =~= all.take(i));
        assert(all.take(i + 1).last() == all[i]);
        match outcome {
            BalanceOutcome::Fetched(b) => {
                balances.push((name, b));
            },
            BalanceOutcome::Unauthorized => {
                let ghost before = unauthorized@;
                unauthorized.push(name);
                assert(views(unauthorized@) =~= views(before).push(all[i].0@));
            },
            BalanceOutcome::Failed => {},
        }
        proof {
            i = i + 1;
        }
    }
    assert(all.take(n as int) =~= all);
    if unauthorized.len() > 0 {
        let mut msg = String::from_str("Unauthorized: ");
        let names = join_with(&unauthorized, ", ");
        msg.append(names.as_str());
        Err(RiskError::Unauthorized(msg))
    } else {
        Ok(balances)
    }
}

} // verus!
