//! Routing of conceptual limit orders: per-asset executors and the hub that
//! applies queued routing commands to them.
use vstd::prelude::*;

use ahash::{AHashMap, AHashSet};

use crate::component::{Component, ComponentState, ComponentTrigger};
use crate::text::views;

verus! {

#[verifier::external_type_specification]
#[verifier::external_body]
#[verifier::reject_recursive_types(K)]
#[verifier::reject_recursive_types(V)]
#[verifier::reject_recursive_types(S)]
pub struct ExAHashMap<K, V, S>(AHashMap<K, V, S>);

#[verifier::external_type_specification]
#[verifier::external_body]
pub struct ExRandomState(ahash::RandomState);

#[verifier::external_type_specification]
#[verifier::external_body]
#[verifier::reject_recursive_types(T)]
#[verifier::reject_recursive_types(S)]
pub struct ExAHashSet<T, S>(AHashSet<T, S>);

/// Executors keyed by the name of their asset.
pub type ExecutorMap = AHashMap<String, Executor>;

/// What a map of executors holds: for each asset name, the ids of the limits
/// that its executor runs, in the executor's order.
pub uninterp spec fn executors_by_asset(m: ExecutorMap) -> Map<Seq<char>, Seq<u128>>;

/// What a set of asset names holds.
pub uninterp spec fn assets_in_set(s: AHashSet<String>) -> Set<Seq<char>>;

/// `AHashMap::new`: the map starts empty.
#[verifier::external_body]
fn executor_map_new() -> (map: ExecutorMap)
    ensures
        executors_by_asset(map).dom() == Set::<Seq<char>>::empty(),
{
    AHashMap::new()
}

/// `AHashMap::get`: the executor stored under `asset`, where there is one.
#[verifier::external_body]
fn executor_map_get<'a>(m: &'a ExecutorMap, asset: &String) -> (r: Option<&'a Executor>)
    ensures
        r is Some <==> executors_by_asset(*m).dom().contains(asset@),
        r matches Some(e) ==> e@ == executors_by_asset(*m)[asset@],
{
    m.get(asset)
}

/// `AHashMap::insert`: stores `e` under `asset`, replacing what was there.
#[verifier::external_body]
fn executor_map_insert(m: &mut ExecutorMap, asset: String, e: Executor)
    ensures
        executors_by_asset(*final(m)) == executors_by_asset(*old(m)).insert(asset@, e@),
{
    m.insert(asset, e);
}

/// `AHashMap::remove`: takes out the executor stored under `asset`, where there is one.
#[verifier::external_body]
fn executor_map_remove(m: &mut ExecutorMap, asset: &String) -> (r: Option<Executor>)
    ensures
        r is Some <==> executors_by_asset(*old(m)).dom().contains(asset@),
        r matches Some(e) ==> e@ == executors_by_asset(*old(m))[asset@],
        executors_by_asset(*final(m)) == executors_by_asset(*old(m)).remove(asset@),
{
    m.remove(asset)
}

/// `AHashMap::keys`: every asset name once, in the map's own (unspecified) order.
#[verifier::external_body]
fn executor_map_assets(m: &ExecutorMap) -> (r: Vec<String>)
    ensures
        r@.map_values(|s: String| s@).no_duplicates(),
        r@.map_values(|s: String| s@).to_set() == executors_by_asset(*m).dom(),
{
    m.keys().cloned().collect()
}

/// `AHashSet::new`: the set starts empty.
#[verifier::external_body]
fn asset_set_new() -> (s: AHashSet<String>)
    ensures
        assets_in_set(s) == Set::<Seq<char>>::empty(),
{
    AHashSet::new()
}

/// `AHashSet::insert`: adds `asset` to the set.
#[verifier::external_body]
fn asset_set_insert(s: &mut AHashSet<String>, asset: String)
    ensures
        assets_in_set(*final(s)) == assets_in_set(*old(s)).insert(asset@),
{
    s.insert(asset);
}

/// `AHashSet::iter`: every member once, in the set's own (unspecified) order.
#[verifier::external_body]
fn asset_set_members(s: &AHashSet<String>) -> (r: Vec<String>)
    ensures
        r@.map_values(|a: String| a@).no_duplicates(),
        r@.map_values(|a: String| a@).to_set() == assets_in_set(*s),
{
    s.iter().cloned().collect()
}

/// Per-asset executor: runs the conceptual limits of one asset, known here by
/// their ids, in execution order.
pub struct Executor {
    inner: Vec<u128>,
}

impl View for Executor {
    type V = Seq<u128>;

    closed spec fn view(&self) -> Seq<u128> {
        self.inner@
    }
}

/// The first index at which `id` occurs in `s` (meaningful where `s` contains it).
pub open spec fn first_index(s: Seq<u128>, id: u128) -> int {
    choose|i: int| 0 <= i < s.len() && s[i] == id && forall|j: int| 0 <= j < i ==> s[j] != id
}

/// `s` with the element at `i` replaced by the last one, and the last one dropped.
pub open spec fn swap_removed(s: Seq<u128>, i: int) -> Seq<u128> {
    s.update(i, s.last()).drop_last()
}

/// `s` without its first `id`, the gap filled by the last element.
pub open spec fn without_id(s: Seq<u128>, id: u128) -> Seq<u128> {
    if s.contains(id) {
        swap_removed(s, first_index(s, id))
    } else {
        s
    }
}

proof fn lemma_first_index(s: Seq<u128>, id: u128, i: int)
    requires
        0 <= i < s.len(),
        s[i] == id,
        forall|j: int| 0 <= j < i ==> s[j] != id,
    ensures
        first_index(s, id) == i,
{
    let k = first_index(s, id);
    assert(0 <= k < s.len() && s[k] == id && forall|j: int| 0 <= j < k ==> s[j] != id);
    if k < i {
        assert(s[k] != id);
    }
    if i < k {
        assert(s[i] != id);
    }
}

impl Executor {
    /// The number of limits run.
    pub fn len(&self) -> (n: usize)
        ensures
            n == self@.len(),
    {
        self.inner.len()
    }

    /// Whether no limit is run.
    pub fn is_empty(&self) -> (r: bool)
        ensures
            r == (self@.len() == 0),
    {
        self.inner.len() == 0
    }

    /// The ids of the limits run, in execution order.
    pub fn ids(&self) -> (r: &[u128])
        ensures
            r@ == self@,
    {
        self.inner.as_slice()
    }

    /// Appends a limit.
    pub fn push(&mut self, id: u128)
        ensures
            final(self)@ == old(self)@.push(id),
    {
        self.inner.push(id);
    }

    /// The index of the first occurrence of `id`, where there is one.
    fn position(&self, id: u128) -> (r: Option<usize>)
        ensures
            r is Some <==> self@.contains(id),
            r matches Some(i) ==> i < self@.len() && self@[i as int] == id && first_index(self@, id) == i,
    {
        let mut i: usize = 0;
        while i < self.inner.len()
            invariant
                i <= self@.len(),
                forall|j: int| 0 <= j < i ==> self@[j] != id,
            decreases self@.len() - i,
        {
            if self.inner[i] == id {
                proof {
                    lemma_first_index(self@, id, i as int);
                }
                return Some(i);
            }
            i = i + 1;
        }
        None
    }

    /// Takes out the first limit with this id, moving the last limit into its place.
    pub fn take_by_id(&mut self, id: u128) -> (r: Option<u128>)
        ensures
            r is Some <==> old(self)@.contains(id),
            r matches Some(taken) ==> taken == id,
            final(self)@ == without_id(old(self)@, id),
    {
        match self.position(id) {
            Some(pos) => Some(self.inner.swap_remove(pos)),
            None => None,
        }
    }

    /// Removes the first limit with this id, moving the last limit into its place;
    /// tells whether there was one.
    pub fn remove_by_id(&mut self, id: u128) -> (r: bool)
        ensures
            r == old(self)@.contains(id),
            final(self)@ == without_id(old(self)@, id),
    {
        match self.position(id) {
            Some(pos) => {
                self.inner.swap_remove(pos);
                true
            },
            None => false,
        }
    }
}

impl Default for Executor {
    /// An executor that runs no limits.
    fn default() -> (e: Executor)
        ensures
            e@ == Seq::<u128>::empty(),
    {
        Executor { inner: Vec::new() }
    }
}


proof fn lemma_without_id(s: Seq<u128>, id: u128)
    requires
        s.no_duplicates(),
    ensures
        without_id(s, id).no_duplicates(),
        forall|x: u128| #[trigger] without_id(s, id).contains(x) <==> (s.contains(x) && x != id),
{
    if s.contains(id) {
        let i = first_index(s, id);
        assert(0 <= i < s.len() && s[i] == id);
        let r = swap_removed(s, i);
        assert(r.len() == s.len() - 1);
        assert forall|a: int, b: int| 0 <= a < r.len() && 0 <= b < r.len() && a != b implies r[a] != r[b] by {
            let ia = if a == i { s.len() - 1 } else { a };
            let ib = if b == i { s.len() - 1 } else { b };
            assert(r[a] == s[ia]);
            assert(r[b] == s[ib]);
        }
        assert forall|x: u128| r.contains(x) <==> (s.contains(x) && x != id) by {
            if r.contains(x) {
                let a = choose|a: int| 0 <= a < r.len() && r[a] == x;
                let ia = if a == i { s.len() - 1 } else { a };
                assert(r[a] == s[ia]);
                assert(ia != i);
            }
            if s.contains(x) && x != id {
                let a = choose|a: int| 0 <= a < s.len() && s[a] == x;
                assert(a != i);
                if a == s.len() - 1 {
                    assert(r[i] == x);
                } else {
                    assert(r[a] == x);
                }
            }
        }
    }
}

proof fn lemma_push_contains<T>(s: Seq<T>, v: T)
    ensures
        forall|x: T| #[trigger] s.push(v).contains(x) <==> (s.contains(x) || x == v),
{
    assert forall|x: T| #[trigger] s.push(v).contains(x) <==> (s.contains(x) || x == v) by {
        if s.push(v).contains(x) && x != v {
            let j = choose|j: int| 0 <= j < s.push(v).len() && s.push(v)[j] == x;
            assert(s[j] == x);
        }
        if s.contains(x) {
            let j = choose|j: int| 0 <= j < s.len() && s[j] == x;
            assert(s.push(v)[j] == x);
        }
        if x == v {
            assert(s.push(v)[s.len() as int] == x);
        }
    }
}

proof fn lemma_single_owner(m: Map<Seq<char>, Seq<u128>>, a: Seq<char>, b: Seq<char>, id: u128)
    requires
        ids_unique(m),
        m.dom().contains(a),
        m.dom().contains(b),
        m[a].contains(id),
        m[b].contains(id),
    ensures
        a == b,
{
    if a != b {
        assert(!m[b].contains(id));
    }
}

proof fn lemma_replace_executor(m: Map<Seq<char>, Seq<u128>>, a: Seq<char>, s2: Seq<u128>)
    requires
        ids_unique(m),
        s2.no_duplicates(),
        forall|x: u128| #[trigger] s2.contains(x) ==> (m.dom().contains(a) && m[a].contains(x)) || !holds(m, x),
    ensures
        ids_unique(m.insert(a, s2)),
        forall|x: u128| #[trigger] holds(m.insert(a, s2), x) ==> holds(m, x) || s2.contains(x),
{
    let m2 = m.insert(a, s2);
    assert forall|b1: Seq<char>, b2: Seq<char>, x: u128|
        m2.dom().contains(b1) && m2.dom().contains(b2) && b1 != b2 && #[trigger] m2[b1].contains(x)
            implies !#[trigger] m2[b2].contains(x) by {
        if b1 == a {
            if m.dom().contains(a) && m[a].contains(x) {
                if m[b2].contains(x) {
                    lemma_single_owner(m, a, b2, x);
                }
            } else {
                if m[b2].contains(x) {
                    assert(holds(m, x));
                }
            }
        } else if b2 == a {
            if s2.contains(x) {
                if m.dom().contains(a) && m[a].contains(x) {
                    lemma_single_owner(m, a, b1, x);
                } else {
                    assert(holds(m, x));
                }
            }
        } else {
            if m[b2].contains(x) {
                lemma_single_owner(m, b1, b2, x);
            }
        }
    }
    assert forall|x: u128| #[trigger] holds(m2, x) implies holds(m, x) || s2.contains(x) by {
        let b = choose|b: Seq<char>| #[trigger] m2.dom().contains(b) && m2[b].contains(x);
        if b != a {
            assert(m.dom().contains(b) && m[b].contains(x));
        }
    }
}

/// Whether `s` holds an `Adj` for `id`.
pub open spec fn has_adjustment<N, A>(s: Seq<Commands<N, A>>, id: u128) -> bool {
    exists|k: int| 0 <= k < s.len() && #[trigger] adj_id(s[k]) == Some(id)
}

/// Whether `cmds` holds an `Adj` for `id`.
fn has_adjustment_for<N, A>(cmds: &Vec<Commands<N, A>>, id: u128) -> (r: bool)
    ensures
        r == has_adjustment(cmds@, id),
{
    let mut k: usize = 0;
    while k < cmds.len()
        invariant
            k <= cmds@.len(),
            forall|j: int| 0 <= j < k ==> #[trigger] adj_id(cmds@[j]) != Some(id),
        decreases cmds@.len() - k,
    {
        match &cmds[k] {
            Commands::Adj { id: adj, .. } => {
                if *adj == id {
                    assert(adj_id(cmds@[k as int]) == Some(id));
                    return true;
                }
            },
            _ => {},
        }
        k = k + 1;
    }
    false
}

/// A routing command, as far as the hub reads it: which limit it is about and
/// on which asset a new one runs. The parameters of a new limit (`N`) and of an
/// adjustment (`A`) are handed on untouched.
pub enum Commands<N, A> {
    /// Start a new limit on `asset` under the id `id`, which no other limit has.
    New { asset: String, id: u128, params: N },
    /// Change the parameters of the limit `id`.
    Adj { id: u128, changes: A },
    /// Delete the limit `id`. When `weak`, the delete is skipped if the queue
    /// holds a later `Adj` for the same id (a limit that deletes itself on
    /// completion while an adjustment is already in flight).
    Del { id: u128, weak: bool },
}

/// The id that a `New` command introduces.
pub open spec fn new_id<N, A>(c: Commands<N, A>) -> Option<u128> {
    match c {
        Commands::New { id, .. } => Some(id),
        _ => None,
    }
}

/// The id that an `Adj` command adjusts.
pub open spec fn adj_id<N, A>(c: Commands<N, A>) -> Option<u128> {
    match c {
        Commands::Adj { id, .. } => Some(id),
        _ => None,
    }
}

/// Whether some executor runs the limit `id`.
pub open spec fn holds(m: Map<Seq<char>, Seq<u128>>, id: u128) -> bool {
    exists|a: Seq<char>| #[trigger] m.dom().contains(a) && m[a].contains(id)
}

/// Every limit is run once, by one executor.
pub open spec fn ids_unique(m: Map<Seq<char>, Seq<u128>>) -> bool {
    &&& forall|a: Seq<char>| #[trigger] m.dom().contains(a) ==> m[a].no_duplicates()
    &&& forall|a1: Seq<char>, a2: Seq<char>, x: u128|
        m.dom().contains(a1) && m.dom().contains(a2) && a1 != a2 && #[trigger] m[a1].contains(x)
            ==> !#[trigger] m[a2].contains(x)
}

/// Whether the queue `q` holds a `New` command for `id`.
pub open spec fn queued_new<N, A>(q: Seq<Commands<N, A>>, id: u128) -> bool {
    exists|j: int| 0 <= j < q.len() && #[trigger] new_id(q[j]) == Some(id)
}

/// Every queued `New` introduces an id that no executor runs and no other
/// queued `New` introduces.
pub open spec fn queue_fresh<N, A>(m: Map<Seq<char>, Seq<u128>>, q: Seq<Commands<N, A>>) -> bool {
    forall|i: int|
        0 <= i < q.len() && #[trigger] new_id(q[i]) is Some ==> {
            &&& !holds(m, new_id(q[i]).unwrap())
            &&& forall|j: int| 0 <= j < q.len() && j != i ==> #[trigger] new_id(q[j]) != new_id(q[i])
        }
}

/// The executor that runs the limit `id`, where one does.
pub open spec fn owner(m: Map<Seq<char>, Seq<u128>>, id: u128) -> Option<Seq<char>> {
    if holds(m, id) {
        Some(choose|a: Seq<char>| #[trigger] m.dom().contains(a) && m[a].contains(id))
    } else {
        None
    }
}

/// Whether an `Adj` for `id` comes after position `i` of the queue `q`.
pub open spec fn later_adjustment<N, A>(q: Seq<Commands<N, A>>, i: int, id: u128) -> bool {
    exists|j: int| i < j < q.len() && #[trigger] adj_id(q[j]) == Some(id)
}

/// What applying a prefix of the queue has done so far.
pub struct CommandEffects<N, A> {
    /// The executors, by asset.
    pub assets: Map<Seq<char>, Seq<u128>>,
    /// The assets whose executors were touched.
    pub dirty: Set<Seq<char>>,
    /// The new limits, in command order.
    pub created: Seq<(String, u128, N)>,
    /// The adjustments that found their limit, in command order.
    pub adjusted: Seq<(u128, A)>,
    /// The limits deleted, in command order.
    pub deleted: Seq<u128>,
}

/// Applies command `i` of the queue `q` to the effects `e`.
pub open spec fn apply_step<N, A>(e: CommandEffects<N, A>, q: Seq<Commands<N, A>>, i: int) -> CommandEffects<N, A> {
    match q[i] {
        Commands::New { asset, id, params } => {
            let before = if e.assets.dom().contains(asset@) { e.assets[asset@] } else { Seq::empty() };
            CommandEffects {
                assets: e.assets.insert(asset@, before.push(id)),
                dirty: e.dirty.insert(asset@),
                created: e.created.push((asset, id, params)),
                ..e
            }
        },
        Commands::Adj { id, changes } => match owner(e.assets, id) {
            Some(a) => CommandEffects {
                assets: e.assets.insert(a, without_id(e.assets[a], id).push(id)),
                dirty: e.dirty.insert(a),
                adjusted: e.adjusted.push((id, changes)),
                ..e
            },
            None => e,
        },
        Commands::Del { id, weak } => if weak && later_adjustment(q, i, id) {
            e
        } else {
            match owner(e.assets, id) {
                Some(a) => CommandEffects {
                    assets: e.assets.insert(a, without_id(e.assets[a], id)),
                    dirty: e.dirty.insert(a),
                    deleted: e.deleted.push(id),
                    ..e
                },
                None => e,
            }
        },
    }
}

/// The effects of applying the first `n` commands of `q` to the executors `start`.
pub open spec fn replay<N, A>(start: Map<Seq<char>, Seq<u128>>, q: Seq<Commands<N, A>>, n: nat) -> CommandEffects<N, A>
    decreases n,
{
    if n == 0 {
        CommandEffects {
            assets: start,
            dirty: Set::empty(),
            created: Seq::empty(),
            adjusted: Seq::empty(),
            deleted: Seq::empty(),
        }
    } else {
        apply_step(replay(start, q, (n - 1) as nat), q, n - 1)
    }
}

/// The executors once the touched ones left without limits are dropped.
pub open spec fn settled(assets: Map<Seq<char>, Seq<u128>>, dirty: Set<Seq<char>>) -> Map<Seq<char>, Seq<u128>> {
    Map::new(|a: Seq<char>| assets.dom().contains(a) && !(dirty.contains(a) && assets[a].len() == 0), |a: Seq<char>| assets[a])
}

/// What applying the queued commands did.
pub struct AppliedCommands<N, A> {
    /// The new limits, in command order: asset, id and parameters.
    pub created: Vec<(String, u128, N)>,
    /// The adjustments that found their limit, in command order: the limit
    /// has been moved to the back of its executor and takes these parameters.
    pub adjusted: Vec<(u128, A)>,
    /// The limits deleted, in command order.
    pub deleted: Vec<u128>,
    /// The touched assets that still run limits: their books are to be watched again.
    pub ticked: Vec<String>,
    /// The touched assets left without limits: dropped from the hub.
    pub removed: Vec<String>,
}

/// Routes conceptual limits: one executor per asset, and a queue of commands
/// that are applied to them in order.
pub struct RoutingHub<N, A> {
    assets: ExecutorMap,
    command_queue: Vec<Commands<N, A>>,
    state: ComponentState,
}

impl<N, A> RoutingHub<N, A> {
    /// The executors, by asset: the ids of the limits each runs, in order.
    pub closed spec fn executors(&self) -> Map<Seq<char>, Seq<u128>> {
        executors_by_asset(self.assets)
    }

    /// The commands waiting to be applied.
    pub closed spec fn queue(&self) -> Seq<Commands<N, A>> {
        self.command_queue@
    }

    /// The hub's lifecycle state.
    pub closed spec fn lifecycle_state(&self) -> ComponentState {
        self.state
    }

    /// Every limit is run once by one executor, and every queued `New` brings a fresh id.
    pub open spec fn wf(&self) -> bool {
        ids_unique(self.executors()) && queue_fresh(self.executors(), self.queue())
    }

    /// Whether `cmd` may join the queue: a `New` must bring an id that no
    /// executor runs and no queued `New` brings.
    pub open spec fn admits(&self, cmd: Commands<N, A>) -> bool {
        match cmd {
            Commands::New { id, .. } => !holds(self.executors(), id) && !queued_new(self.queue(), id),
            _ => true,
        }
    }

    /// The executor of `asset`, where the hub has one.
    pub fn executor(&self, asset: &String) -> (r: Option<&Executor>)
        ensures
            r is Some <==> self.executors().dom().contains(asset@),
            r matches Some(e) ==> e@ == self.executors()[asset@],
    {
        executor_map_get(&self.assets, asset)
    }

    /// The assets that have an executor, each once.
    pub fn asset_names(&self) -> (r: Vec<String>)
        ensures
            views(r@).no_duplicates(),
            views(r@).to_set() == self.executors().dom(),
    {
        executor_map_assets(&self.assets)
    }

    /// Whether `id` is free for a new limit: no executor runs it and no queued `New` brings it.
    pub fn is_fresh_id(&self, id: u128) -> (r: bool)
        requires
            self.wf(),
        ensures
            r == (!holds(self.executors(), id) && !queued_new(self.queue(), id)),
    {
        if self.find_owner_of(id).is_some() {
            return false;
        }
        let mut i: usize = 0;
        while i < self.command_queue.len()
            invariant
                i <= self.queue().len(),
                forall|j: int| 0 <= j < i ==> #[trigger] new_id(self.queue()[j]) != Some(id),
            decreases self.queue().len() - i,
        {
            match &self.command_queue[i] {
                Commands::New { id: queued, .. } => {
                    if *queued == id {
                        assert(new_id(self.queue()[i as int]) == Some(id));
                        return false;
                    }
                },
                _ => {},
            }
            i = i + 1;
        }
        true
    }

    /// Queues a command, to be applied by the next `apply_commands`.
    pub fn push_command(&mut self, cmd: Commands<N, A>)
        requires
            old(self).wf(),
            old(self).admits(cmd),
        ensures
            final(self).wf(),
            final(self).queue() == old(self).queue().push(cmd),
            final(self).executors() == old(self).executors(),
            final(self).lifecycle_state() == old(self).lifecycle_state(),
    {
        self.command_queue.push(cmd);
        proof {
            let q = self.queue();
            let m = self.executors();
            assert forall|i: int| 0 <= i < q.len() && #[trigger] new_id(q[i]) is Some implies {
                &&& !holds(m, new_id(q[i]).unwrap())
                &&& forall|j: int| 0 <= j < q.len() && j != i ==> #[trigger] new_id(q[j]) != new_id(q[i])
            } by {
                let oq = old(self).queue();
                if i < oq.len() {
                    assert(q[i] == oq[i]);
                    assert forall|j: int| 0 <= j < q.len() && j != i implies #[trigger] new_id(q[j]) != new_id(q[i]) by {
                        if j < oq.len() {
                            assert(q[j] == oq[j]);
                        } else {
                            assert(q[j] == cmd);
                            if new_id(cmd) == new_id(q[i]) {
                                assert(new_id(oq[i]) == Some(new_id(cmd).unwrap()));
                            }
                        }
                    }
                } else {
                    assert(q[i] == cmd);
                    assert forall|j: int| 0 <= j < q.len() && j != i implies #[trigger] new_id(q[j]) != new_id(q[i]) by {
                        assert(q[j] == oq[j]);
                        if new_id(oq[j]) == new_id(cmd) {
                            assert(queued_new(oq, new_id(cmd).unwrap()));
                        }
                    }
                }
            }
        }
    }

    /// Applies the queued commands in order, then drops the touched executors
    /// that run no limit any more. Hands back what the commands did, for the
    /// caller to build the new limits, adjust the moved ones, and watch the
    /// books of the touched assets that still run limits.
    pub fn apply_commands(&mut self) -> (out: AppliedCommands<N, A>)
        requires
            old(self).wf(),
        ensures
            final(self).wf(),
            final(self).queue() == Seq::<Commands<N, A>>::empty(),
            final(self).lifecycle_state() == old(self).lifecycle_state(),
            ({
                let e = replay(old(self).executors(), old(self).queue(), old(self).queue().len());
                &&& final(self).executors() == settled(e.assets, e.dirty)
                &&& out.created@ == e.created
                &&& out.adjusted@ == e.adjusted
                &&& out.deleted@ == e.deleted
                &&& views(out.ticked@).no_duplicates()
                &&& views(out.ticked@).to_set() == e.dirty.filter(|a: Seq<char>| e.assets[a].len() > 0)
                &&& views(out.removed@).no_duplicates()
                &&& views(out.removed@).to_set() == e.dirty.filter(|a: Seq<char>| e.assets[a].len() == 0)
            }),
    {
        let mut queue: Vec<Commands<N, A>> = Vec::new();
        std::mem::swap(&mut queue, &mut self.command_queue);
        let ghost q = queue@;
        let ghost n = q.len();
        let ghost start = self.executors();
        // `rest` holds the commands still to apply, the next one last.
        let mut rest: Vec<Commands<N, A>> = Vec::new();
        while queue.len() > 0
            invariant
                n == q.len(),
                queue@.len() <= n,
                queue@ == q.subrange(0, queue@.len() as int),
                rest@.len() == n - queue@.len(),
                forall|k: int| 0 <= k < rest@.len() ==> #[trigger] rest@[k] == q[n - 1 - k],
            decreases queue@.len(),
        {
            let c = queue.pop().unwrap();
            rest.push(c);
        }
        let mut dirty = asset_set_new();
        let mut created: Vec<(String, u128, N)> = Vec::new();
        let mut adjusted: Vec<(u128, A)> = Vec::new();
        let mut deleted: Vec<u128> = Vec::new();
        let ghost mut i: int = 0;
        while rest.len() > 0
            invariant
                n == q.len(),
                0 <= i <= n,
                rest@.len() == n - i,
                forall|k: int| 0 <= k < rest@.len() ==> #[trigger] rest@[k] == q[n - 1 - k],
                queue_fresh(start, q),
                ({
                    let e = replay(start, q, i as nat);
                    &&& self.executors() == e.assets
                    &&& assets_in_set(dirty) == e.dirty
                    &&& created@ == e.created
                    &&& adjusted@ == e.adjusted
                    &&& deleted@ == e.deleted
                    &&& ids_unique(e.assets)
                    &&& e.dirty.subset_of(e.assets.dom())
                    &&& forall|j: int| i <= j < n && #[trigger] new_id(q[j]) is Some ==> !holds(e.assets, new_id(q[j]).unwrap())
                }),
                self.command_queue@ == Seq::<Commands<N, A>>::empty(),
                self.state == old(self).state,
            decreases rest@.len(),
        {
            let ghost e = replay(start, q, i as nat);
            let cmd = rest.pop().unwrap();
            assert(cmd == q[i]);
            match cmd {
                Commands::New { asset, id, params } => {
                    let before = executor_map_remove(&mut self.assets, &asset);
                    let mut ex = match before {
                        Some(ex) => ex,
                        None => Executor::default(),
                    };
                    ex.push(id);
                    proof {
                        assert(new_id(q[i]) == Some(id));
                        assert(!holds(e.assets, id));
                        if e.assets.dom().contains(asset@) {
                            assert(e.assets[asset@].no_duplicates());
                            assert(!e.assets[asset@].contains(id));
                        }
                        lemma_replace_executor(e.assets, asset@, ex@);
                    }
                    executor_map_insert(&mut self.assets, asset.clone(), ex);
                    asset_set_insert(&mut dirty, asset.clone());
                    created.push((asset, id, params));
                    proof {
                        let e2 = replay(start, q, (i + 1) as nat);
                        assert(self.executors() =~= e2.assets);
                        assert forall|j: int| i + 1 <= j < n && #[trigger] new_id(q[j]) is Some implies !holds(e2.assets, new_id(q[j]).unwrap()) by {
                            assert(new_id(q[j]) != new_id(q[i]));
                        }
                    }
                },
                Commands::Adj { id, changes } => {
                    match self.find_owner_of(id) {
                        Some(owner_asset) => {
                            let ex = executor_map_remove(&mut self.assets, &owner_asset);
                            let mut ex = ex.unwrap();
                            ex.take_by_id(id);
                            proof {
                                assert(e.assets[owner_asset@].no_duplicates());
                                lemma_without_id(e.assets[owner_asset@], id);
                            }
                            ex.push(id);
                            proof {
                                lemma_replace_executor(e.assets, owner_asset@, ex@);
                            }
                            executor_map_insert(&mut self.assets, owner_asset.clone(), ex);
                            asset_set_insert(&mut dirty, owner_asset);
                            adjusted.push((id, changes));
                            proof {
                                let e2 = replay(start, q, (i + 1) as nat);
                                assert(self.executors() =~= e2.assets);
                            }
                        },
                        None => {},
                    }
                },
                Commands::Del { id, weak } => {
                    let skip = weak && has_adjustment_for(&rest, id);
                    proof {
                        if weak {
                            if has_adjustment(rest@, id) {
                                let k = choose|k: int| 0 <= k < rest@.len() && #[trigger] adj_id(rest@[k]) == Some(id);
                                assert(adj_id(q[n - 1 - k]) == Some(id));
                                assert(later_adjustment(q, i, id));
                            }
                            if later_adjustment(q, i, id) {
                                let j = choose|j: int| i < j < q.len() && #[trigger] adj_id(q[j]) == Some(id);
                                assert(rest@[n - 1 - j] == q[j]);
                                assert(has_adjustment(rest@, id));
                            }
                        }
                    }
                    if !skip {
                        match self.find_owner_of(id) {
                            Some(owner_asset) => {
                                let ex = executor_map_remove(&mut self.assets, &owner_asset);
                                let mut ex = ex.unwrap();
                                ex.remove_by_id(id);
                                proof {
                                    assert(e.assets[owner_asset@].no_duplicates());
                                    lemma_without_id(e.assets[owner_asset@], id);
                                    lemma_replace_executor(e.assets, owner_asset@, ex@);
                                }
                                executor_map_insert(&mut self.assets, owner_asset.clone(), ex);
                                asset_set_insert(&mut dirty, owner_asset);
                                deleted.push(id);
                                proof {
                                    let e2 = replay(start, q, (i + 1) as nat);
                                    assert(self.executors() =~= e2.assets);
                                }
                            },
                            None => {},
                        }
                    }
                },
            }
            proof {
                i = i + 1;
            }
        }
        let ghost e = replay(start, q, n as nat);
        let members = asset_set_members(&dirty);
        let mut ticked: Vec<String> = Vec::new();
        let mut removed: Vec<String> = Vec::new();
        let mut k: usize = 0;
        while k < members.len()
            invariant
                i == n,
                e == replay(start, q, n as nat),
                ids_unique(e.assets),
                e.dirty.subset_of(e.assets.dom()),
                views(members@).no_duplicates(),
                views(members@).to_set() == e.dirty,
                k <= members@.len(),
                self.executors() == Map::new(
                    |a: Seq<char>| e.assets.dom().contains(a)
                        && !(views(members@).take(k as int).contains(a) && e.assets[a].len() == 0),
                    |a: Seq<char>| e.assets[a],
                ),
                views(ticked@).no_duplicates(),
                views(removed@).no_duplicates(),
                forall|a: Seq<char>| #[trigger] views(ticked@).contains(a) <==> (views(members@).take(k as int).contains(a) && e.assets[a].len() > 0),
                forall|a: Seq<char>| #[trigger] views(removed@).contains(a) <==> (views(members@).take(k as int).contains(a) && e.assets[a].len() == 0),
                self.command_queue@ == Seq::<Commands<N, A>>::empty(),
                self.state == old(self).state,
            decreases members@.len() - k,
        {
            let a = &members[k];
            assert(views(members@)[k as int] == a@);
            assert(views(members@).take(k as int + 1) =~= views(members@).take(k as int).push(a@));
            assert(!views(members@).take(k as int).contains(a@));
            proof {
                lemma_push_contains(views(members@).take(k as int), a@);
            }
            assert(e.dirty.contains(a@));
            match executor_map_get(&self.assets, a) {
                Some(ex) => {
                    if ex.is_empty() {
                        let ghost prior = self.executors();
                        assert(prior.dom().contains(a@));
                        assert(prior[a@] == e.assets[a@]);
                        assert(e.assets[a@].len() == 0);
                        executor_map_remove(&mut self.assets, a);
                        proof {
                            assert(self.executors() == prior.remove(a@));
                            assert(self.executors() =~= Map::new(
                                |x: Seq<char>| e.assets.dom().contains(x)
                                    && !(views(members@).take(k as int + 1).contains(x) && e.assets[x].len() == 0),
                                |x: Seq<char>| e.assets[x],
                            ));
                        }
                        let ghost before = removed@;
                        assert(!views(before).contains(a@));
                        removed.push(a.clone());
                        assert(views(removed@) =~= views(before).push(a@));
                        proof { lemma_push_contains(views(before), a@); }
                    } else {
                        let ghost before = ticked@;
                        assert(!views(before).contains(a@));
                        assert(e.assets[a@].len() > 0);
                        proof {
                            assert(self.executors() =~= Map::new(
                                |x: Seq<char>| e.assets.dom().contains(x)
                                    && !(views(members@).take(k as int + 1).contains(x) && e.assets[x].len() == 0),
                                |x: Seq<char>| e.assets[x],
                            ));
                        }
                        ticked.push(a.clone());
                        assert(views(ticked@) =~= views(before).push(a@));
                        proof { lemma_push_contains(views(before), a@); }
                    }
                },
                None => {},
            }
            k = k + 1;
        }
        proof {
            assert(views(members@).take(members@.len() as int) =~= views(members@));
            assert(self.executors() =~= settled(e.assets, e.dirty));
            assert(views(ticked@).to_set() =~= e.dirty.filter(|a: Seq<char>| e.assets[a].len() > 0));
            assert(views(removed@).to_set() =~= e.dirty.filter(|a: Seq<char>| e.assets[a].len() == 0));
            assert(self.queue() =~= Seq::<Commands<N, A>>::empty());
            assert(queue_fresh(self.executors(), self.queue()));
        }
        AppliedCommands { created, adjusted, deleted, ticked, removed }
    }

    /// The asset whose executor runs the limit `id`, where one does.
    fn find_owner_of(&self, id: u128) -> (r: Option<String>)
        requires
            ids_unique(self.executors()),
        ensures
            r is Some <==> holds(self.executors(), id),
            r matches Some(a) ==> owner(self.executors(), id) == Some(a@),
    {
        let assets = executor_map_assets(&self.assets);
        let ghost m = self.executors();
        let mut k: usize = 0;
        while k < assets.len()
            invariant
                m == self.executors(),
                ids_unique(m),
                k <= assets@.len(),
                views(assets@).to_set() == m.dom(),
                forall|j: int| 0 <= j < k ==> !#[trigger] m[views(assets@)[j]].contains(id),
            decreases assets@.len() - k,
        {
            let a = &assets[k];
            assert(views(assets@)[k as int] == a@);
            assert(views(assets@).contains(a@));
            match executor_map_get(&self.assets, a) {
                Some(e) => {
                    if e.position(id).is_some() {
                        proof {
                            assert(m.dom().contains(a@));
                            assert(m[a@].contains(id));
                            assert(holds(m, id));
                            let c = choose|x: Seq<char>| #[trigger] m.dom().contains(x) && m[x].contains(id);
                            assert(m.dom().contains(c) && m[c].contains(id));
                            lemma_single_owner(m, c, a@, id);
                            assert(owner(m, id) == Some(a@));
                        }
                        let found = a.clone();
                        assert(found@ == a@);
                        return Some(found);
                    }
                },
                None => {},
            }
            k = k + 1;
        }
        proof {
            assert forall|x: Seq<char>| #[trigger] m.dom().contains(x) implies !m[x].contains(id) by {
                assert(views(assets@).to_set().contains(x));
                let j = choose|j: int| 0 <= j < views(assets@).len() && views(assets@)[j] == x;
            }
        }
        None
    }
}

/// The ids of the limits that some executor runs.
pub open spec fn held_ids(m: Map<Seq<char>, Seq<u128>>) -> Set<u128> {
    Set::new(|x: u128| holds(m, x))
}

/// The ids of the new limits.
pub open spec fn created_ids<N>(created: Seq<(String, u128, N)>) -> Set<u128> {
    created.map_values(|c: (String, u128, N)| c.1).to_set()
}

proof fn lemma_held_after_replace(m: Map<Seq<char>, Seq<u128>>, a: Seq<char>, s2: Seq<u128>, x: u128)
    requires
        ids_unique(m),
    ensures
        holds(m.insert(a, s2), x) <==> (s2.contains(x) || (holds(m, x) && !(m.dom().contains(a) && m[a].contains(x)))),
{
    let m2 = m.insert(a, s2);
    if s2.contains(x) {
        assert(m2.dom().contains(a) && m2[a].contains(x));
    }
    if holds(m, x) && !(m.dom().contains(a) && m[a].contains(x)) {
        let b = choose|b: Seq<char>| #[trigger] m.dom().contains(b) && m[b].contains(x);
        assert(m2.dom().contains(b) && m2[b].contains(x));
    }
    if holds(m2, x) {
        let b = choose|b: Seq<char>| #[trigger] m2.dom().contains(b) && m2[b].contains(x);
        if b != a {
            assert(m.dom().contains(b) && m[b].contains(x));
            if m.dom().contains(a) && m[a].contains(x) {
                lemma_single_owner(m, a, b, x);
            }
        }
    }
}

proof fn lemma_owner(m: Map<Seq<char>, Seq<u128>>, id: u128)
    requires
        owner(m, id) is Some,
    ensures
        m.dom().contains(owner(m, id).unwrap()),
        m[owner(m, id).unwrap()].contains(id),
{
}

proof fn lemma_created_ids_push<N>(created: Seq<(String, u128, N)>, c: (String, u128, N), x: u128)
    ensures
        created_ids(created.push(c)).contains(x) <==> (created_ids(created).contains(x) || x == c.1),
{
    let f = |c: (String, u128, N)| c.1;
    assert(created.push(c).map_values(f) =~= created.map_values(f).push(c.1));
    lemma_push_contains(created.map_values(f), c.1);
}

/// What stays true while the queue is replayed: limits stay unique, the
/// remaining `New` ids stay fresh, touched assets keep their executors, and the
/// limits run are those run at the start or created, less those deleted.
proof fn lemma_replay<N, A>(start: Map<Seq<char>, Seq<u128>>, q: Seq<Commands<N, A>>, n: nat)
    requires
        ids_unique(start),
        queue_fresh(start, q),
        n <= q.len(),
    ensures
        ({
            let e = replay(start, q, n);
            &&& ids_unique(e.assets)
            &&& e.dirty.subset_of(e.assets.dom())
            &&& forall|j: int| n <= j < q.len() && #[trigger] new_id(q[j]) is Some ==> {
                &&& !holds(e.assets, new_id(q[j]).unwrap())
                &&& !created_ids(e.created).contains(new_id(q[j]).unwrap())
            }
            &&& forall|x: u128| #[trigger] holds(e.assets, x) <==> ((holds(start, x) || created_ids(e.created).contains(x))
                && !e.deleted.contains(x))
            &&& forall|x: u128| #[trigger] e.deleted.contains(x) ==> (holds(start, x) || created_ids(e.created).contains(x))
        }),
    decreases n,
{
    if n == 0 {
        let e = replay(start, q, n);
        assert(created_ids(e.created) =~= Set::<u128>::empty());
    } else {
        lemma_replay(start, q, (n - 1) as nat);
        let i = n - 1;
        let e = replay(start, q, (n - 1) as nat);
        let e2 = replay(start, q, n);
        assert(e2 == apply_step(e, q, i));
        match q[i] {
            Commands::New { asset, id, params } => {
                assert(new_id(q[i]) == Some(id));
                let before = if e.assets.dom().contains(asset@) { e.assets[asset@] } else { Seq::<u128>::empty() };
                if e.assets.dom().contains(asset@) {
                    assert(e.assets[asset@].no_duplicates());
                    assert(!e.assets[asset@].contains(id));
                }
                lemma_push_contains(before, id);
                lemma_replace_executor(e.assets, asset@, before.push(id));
                assert forall|x: u128| #[trigger] holds(e2.assets, x) <==> ((holds(start, x) || created_ids(e2.created).contains(x))
                    && !e2.deleted.contains(x)) by {
                    lemma_held_after_replace(e.assets, asset@, before.push(id), x);
                    lemma_created_ids_push(e.created, (asset, id, params), x);
                    if x == id {
                        assert(!created_ids(e.created).contains(id));
                        assert(!holds(start, id));
                        assert(!e.deleted.contains(id));
                    }
                    if before.contains(x) {
                        assert(e.assets.dom().contains(asset@) && e.assets[asset@].contains(x));
                        assert(holds(e.assets, x));
                    }
                }
                assert forall|x: u128| #[trigger] e2.deleted.contains(x) implies (holds(start, x) || created_ids(e2.created).contains(x)) by {
                    lemma_created_ids_push(e.created, (asset, id, params), x);
                }
                assert forall|j: int| n <= j < q.len() && #[trigger] new_id(q[j]) is Some implies {
                    &&& !holds(e2.assets, new_id(q[j]).unwrap())
                    &&& !created_ids(e2.created).contains(new_id(q[j]).unwrap())
                } by {
                    assert(new_id(q[j]) != new_id(q[i]));
                    lemma_held_after_replace(e.assets, asset@, before.push(id), new_id(q[j]).unwrap());
                    lemma_created_ids_push(e.created, (asset, id, params), new_id(q[j]).unwrap());
                }
            },
            Commands::Adj { id, changes } => {
                if owner(e.assets, id) is Some {
                    let a = owner(e.assets, id).unwrap();
                    lemma_owner(e.assets, id);
                    assert(e.assets[a].no_duplicates());
                    lemma_without_id(e.assets[a], id);
                    let s2 = without_id(e.assets[a], id).push(id);
                    lemma_push_contains(without_id(e.assets[a], id), id);
                    lemma_replace_executor(e.assets, a, s2);
                    assert forall|x: u128| #[trigger] holds(e2.assets, x) <==> holds(e.assets, x) by {
                        lemma_held_after_replace(e.assets, a, s2, x);
                    }
                }
            },
            Commands::Del { id, weak } => {
                if !(weak && later_adjustment(q, i, id)) && owner(e.assets, id) is Some {
                    let a = owner(e.assets, id).unwrap();
                    lemma_owner(e.assets, id);
                    assert(e.assets[a].no_duplicates());
                    lemma_without_id(e.assets[a], id);
                    let s2 = without_id(e.assets[a], id);
                    lemma_replace_executor(e.assets, a, s2);
                    assert(holds(e.assets, id));
                    assert forall|x: u128| #[trigger] holds(e2.assets, x) <==> (holds(e.assets, x) && x != id) by {
                        lemma_held_after_replace(e.assets, a, s2, x);
                    }
                    lemma_push_contains(e.deleted, id);
                }
            },
        }
    }
}

/// Applying queued commands neither loses nor invents limits: afterwards the
/// hub runs exactly the limits that it ran before or that a `New` brought, less
/// those that a `Del` removed; and every limit is still run by one executor only.
pub proof fn applying_commands_keeps_limits<N, A>(start: Map<Seq<char>, Seq<u128>>, q: Seq<Commands<N, A>>)
    requires
        ids_unique(start),
        queue_fresh(start, q),
    ensures
        ({
            let e = replay(start, q, q.len());
            &&& ids_unique(settled(e.assets, e.dirty))
            &&& held_ids(settled(e.assets, e.dirty)) == held_ids(start).union(created_ids(e.created)).difference(
                e.deleted.to_set(),
            )
        }),
{
    lemma_replay(start, q, q.len());
    let e = replay(start, q, q.len());
    let m = settled(e.assets, e.dirty);
    assert forall|x: u128| #[trigger] holds(m, x) <==> holds(e.assets, x) by {
        if holds(e.assets, x) {
            let b = choose|b: Seq<char>| #[trigger] e.assets.dom().contains(b) && e.assets[b].contains(x);
            assert(m.dom().contains(b) && m[b].contains(x));
        }
        if holds(m, x) {
            let b = choose|b: Seq<char>| #[trigger] m.dom().contains(b) && m[b].contains(x);
            assert(e.assets.dom().contains(b) && e.assets[b].contains(x));
        }
    }
    assert forall|a1: Seq<char>, a2: Seq<char>, x: u128|
        m.dom().contains(a1) && m.dom().contains(a2) && a1 != a2 && #[trigger] m[a1].contains(x)
            implies !#[trigger] m[a2].contains(x) by {
        if m[a2].contains(x) {
            lemma_single_owner(e.assets, a1, a2, x);
        }
    }
    assert(held_ids(m) =~= held_ids(start).union(created_ids(e.created)).difference(e.deleted.to_set()));
}

/// A weak delete of a limit is skipped when an adjustment of the same limit
/// comes later in the queue: it changes nothing.
pub proof fn weak_delete_yields_to_later_adjustment<N, A>(e: CommandEffects<N, A>, q: Seq<Commands<N, A>>, i: int)
    requires
        0 <= i < q.len(),
        q[i] matches Commands::Del { id, weak } && weak && later_adjustment(q, i, id),
    ensures
        apply_step(e, q, i) == e,
{
}

/// Whether `s` holds an `Adj` for `id` is whether some command in it is an
/// adjustment of exactly that limit.
pub proof fn has_adjustment_means_adjustment_of_that_id<N, A>(s: Seq<Commands<N, A>>, id: u128)
    ensures
        has_adjustment(s, id) <==> exists|k: int|
            0 <= k < s.len() && (#[trigger] s[k] matches Commands::Adj { id: a, .. } && a == id),
{
    if has_adjustment(s, id) {
        let k = choose|k: int| 0 <= k < s.len() && #[trigger] adj_id(s[k]) == Some(id);
        assert(s[k] matches Commands::Adj { id: a, .. } && a == id);
    }
    if exists|k: int| 0 <= k < s.len() && (#[trigger] s[k] matches Commands::Adj { id: a, .. } && a == id) {
        let k = choose|k: int| 0 <= k < s.len() && (#[trigger] s[k] matches Commands::Adj { id: a, .. } && a == id);
        assert(adj_id(s[k]) == Some(id));
    }
}

/// A weak delete is skipped exactly when a later command of the queue adjusts
/// the same limit. When an `Adj` of that id follows, nothing changes; when every
/// later `Adj` names another limit (or none follows), a held limit is removed
/// and reported deleted, just as a plain delete would.
pub proof fn weak_delete_skipped_only_for_its_own_adjustment<N, A>(
    e: CommandEffects<N, A>,
    q: Seq<Commands<N, A>>,
    i: int,
    id: u128,
)
    requires
        0 <= i < q.len(),
        ids_unique(e.assets),
        q[i] matches Commands::Del { id: d, weak } && d == id && weak,
    ensures
        (exists|j: int| i < j < q.len() && (#[trigger] q[j] matches Commands::Adj { id: a, .. } && a == id))
            ==> apply_step(e, q, i) == e,
        ((forall|j: int| i < j < q.len() ==> !(#[trigger] q[j] matches Commands::Adj { id: a, .. } && a == id))
            && holds(e.assets, id)) ==> {
            &&& !holds(apply_step(e, q, i).assets, id)
            &&& apply_step(e, q, i).deleted == e.deleted.push(id)
            &&& apply_step(e, q, i).adjusted == e.adjusted
            &&& apply_step(e, q, i).created == e.created
        },
{
    if exists|j: int| i < j < q.len() && (#[trigger] q[j] matches Commands::Adj { id: a, .. } && a == id) {
        let j = choose|j: int| i < j < q.len() && (#[trigger] q[j] matches Commands::Adj { id: a, .. } && a == id);
        assert(adj_id(q[j]) == Some(id));
        assert(later_adjustment(q, i, id));
    }
    if (forall|j: int| i < j < q.len() ==> !(#[trigger] q[j] matches Commands::Adj { id: a, .. } && a == id))
        && holds(e.assets, id) {
        if later_adjustment(q, i, id) {
            let j = choose|j: int| i < j < q.len() && #[trigger] adj_id(q[j]) == Some(id);
            assert(q[j] matches Commands::Adj { id: a, .. } && a == id);
        }
        let a = owner(e.assets, id).unwrap();
        lemma_owner(e.assets, id);
        assert(e.assets[a].no_duplicates());
        lemma_without_id(e.assets[a], id);
        lemma_held_after_replace(e.assets, a, without_id(e.assets[a], id), id);
    }
}

/// A delete that is not skipped removes the limit: no executor runs it
/// afterwards, and it is reported deleted.
pub proof fn delete_removes_the_limit<N, A>(e: CommandEffects<N, A>, q: Seq<Commands<N, A>>, i: int, id: u128)
    requires
        0 <= i < q.len(),
        ids_unique(e.assets),
        q[i] matches Commands::Del { id: del_id, weak } && del_id == id && !(weak && later_adjustment(q, i, id)),
        holds(e.assets, id),
    ensures
        !holds(apply_step(e, q, i).assets, id),
        apply_step(e, q, i).deleted == e.deleted.push(id),
{
    let a = owner(e.assets, id).unwrap();
    lemma_owner(e.assets, id);
    assert(e.assets[a].no_duplicates());
    lemma_without_id(e.assets[a], id);
    lemma_held_after_replace(e.assets, a, without_id(e.assets[a], id), id);
}

/// An adjustment moves its limit to the back of the executor that runs it,
/// which keeps running the same limits.
pub proof fn adjustment_moves_limit_to_back<N, A>(e: CommandEffects<N, A>, q: Seq<Commands<N, A>>, i: int, id: u128)
    requires
        0 <= i < q.len(),
        ids_unique(e.assets),
        adj_id(q[i]) == Some(id),
        holds(e.assets, id),
    ensures
        ({
            let a = owner(e.assets, id).unwrap();
            let after = apply_step(e, q, i).assets[a];
            &&& after.last() == id
            &&& after.len() == e.assets[a].len()
            &&& forall|x: u128| #[trigger] after.contains(x) <==> e.assets[a].contains(x)
        }),
{
    let a = owner(e.assets, id).unwrap();
    lemma_owner(e.assets, id);
    assert(e.assets[a].no_duplicates());
    lemma_without_id(e.assets[a], id);
    lemma_push_contains(without_id(e.assets[a], id), id);
}

/// After commands are applied, no executor that they touched is left without limits.
pub proof fn touched_executors_keep_limits(assets: Map<Seq<char>, Seq<u128>>, dirty: Set<Seq<char>>, a: Seq<char>)
    requires
        settled(assets, dirty).dom().contains(a),
        dirty.contains(a),
    ensures
        settled(assets, dirty)[a].len() > 0,
{
}

impl<N, A> Default for RoutingHub<N, A> {
    /// A hub without executors or commands, initialized.
    fn default() -> (hub: RoutingHub<N, A>)
        ensures
            hub.wf(),
            hub.executors().dom() == Set::<Seq<char>>::empty(),
            hub.queue() == Seq::<Commands<N, A>>::empty(),
            hub.lifecycle_state() == ComponentState::Ready,
    {
        let mut hub = RoutingHub { assets: executor_map_new(), command_queue: Vec::new(), state: ComponentState::PreInitialized };
        hub.transition_state(ComponentTrigger::Initialize);
        hub
    }
}

/// An adjustment would reverse the position.
#[derive(Clone, Copy, Debug, PartialEq, Eq, Structural)]
pub enum InvalidRoutingError {
    AdjustmentWouldReverse,
}

impl InvalidRoutingError {
    pub open spec fn spec_message(self) -> Seq<char> {
        match self {
            InvalidRoutingError::AdjustmentWouldReverse =>
                "adjustment would reverse position (hint: submit a Del and a new New instead)"@,
        }
    }

    /// How the error is displayed.
    pub fn message(&self) -> (r: &'static str)
        ensures
            r@ == self.spec_message(),
    {
        match self {
            InvalidRoutingError::AdjustmentWouldReverse =>
                "adjustment would reverse position (hint: submit a Del and a new New instead)",
        }
    }
}

impl<N, A> Component for RoutingHub<N, A> {
    closed spec fn lifecycle(&self) -> ComponentState {
        self.state
    }

    fn state(&self) -> (s: ComponentState) {
        self.state
    }

    fn transition_state(&mut self, trigger: ComponentTrigger)
        ensures
            final(self).executors() == old(self).executors(),
            final(self).queue() == old(self).queue(),
    {
        self.state.transition(trigger);
    }
}

} // verus!
