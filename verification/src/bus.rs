//! Decisions of the command bus: whether a consumer is alive to take
//! published commands, which group-creation failures are harmless, and when
//! connection problems have piled up.
use vstd::prelude::*;

verus! {

/// Stream on which routing commands are published.
pub const ROUTING_STREAM_KEY: &'static str = "discretionary_engine:routing:commands";

/// Consumer group that the routing service reads with.
pub const ROUTING_CONSUMER_GROUP: &'static str = "routing_consumers";

/// Stream on which strategy commands are published.
pub const STRATEGY_STREAM_KEY: &'static str = "discretionary_engine:strategy:commands";

/// Consumer group that the strategy reads with.
pub const STRATEGY_CONSUMER_GROUP: &'static str = "strategy_consumers";

/// Max idle time (ms) before a consumer is considered dead.
pub const CONSUMER_ALIVE_THRESHOLD_MS: i64 = 10_000;

/// Connection failures in a row after which the problem is escalated.
pub const MAX_CONNECTION_FAILURES: u32 = 10;

/// One value of a consumer's entry in an `XINFO CONSUMERS` reply: its bytes
/// where it is a bulk string, and its reading as an integer where it has one.
pub struct ReplyField {
    pub bulk: Option<Vec<u8>>,
    pub as_int: Option<i64>,
}

/// Whether the field is the bulk string `idle`.
pub open spec fn is_idle_key(f: ReplyField) -> bool {
    f.bulk matches Some(b) && b@ == seq![105u8, 100u8, 108u8, 101u8]
}

/// The idle time that a field gives, an unreadable one counting as forever.
pub open spec fn idle_of(f: ReplyField) -> i64 {
    match f.as_int {
        Some(v) => v,
        None => i64::MAX,
    }
}

/// A consumer is alive when the value after its first `idle` key is an idle
/// time under the threshold.
pub open spec fn consumer_alive(fields: Seq<ReplyField>) -> bool {
    exists|p: int|
        0 <= p && p + 1 < fields.len() && #[trigger] is_idle_key(fields[p])
            && (forall|j: int| 0 <= j < p ==> !is_idle_key(#[trigger] fields[j]))
            && idle_of(fields[p + 1]) < CONSUMER_ALIVE_THRESHOLD_MS
}

/// A reply shows a live consumer when it is a list in which some entry is a
/// list of fields whose consumer is alive.
pub open spec fn reply_shows_live_consumer(reply: Option<Seq<Option<Vec<ReplyField>>>>) -> bool {
    match reply {
        Some(entries) => exists|k: int|
            0 <= k < entries.len() && (#[trigger] entries[k] matches Some(fields) && consumer_alive(fields@)),
        None => false,
    }
}

fn is_idle_field(f: &ReplyField) -> (r: bool)
    ensures
        r == is_idle_key(*f),
{
    match &f.bulk {
        Some(b) => {
            let r = b.len() == 4 && b[0] == 105u8 && b[1] == 100u8 && b[2] == 108u8 && b[3] == 101u8;
            proof {
                if r {
                    assert(b@ =~= seq![105u8, 100u8, 108u8, 101u8]);
                }
            }
            r
        },
        None => false,
    }
}

/// Whether the consumer with these fields is alive: the value after its first
/// `idle` key is an idle time under the threshold.
pub fn consumer_is_alive(fields: &Vec<ReplyField>) -> (r: bool)
    ensures
        r == consumer_alive(fields@),
{
    let n = fields.len();
    let mut p: usize = 0;
    while p < n
        invariant
            n == fields@.len(),
            p <= n,
            forall|j: int| 0 <= j < p ==> !is_idle_key(#[trigger] fields@[j]),
        decreases n - p,
    {
        if is_idle_field(&fields[p]) {
            if p + 1 < n {
                let idle = match fields[p + 1].as_int {
                    Some(v) => v,
                    None => i64::MAX,
                };
                let alive = idle < CONSUMER_ALIVE_THRESHOLD_MS;
                proof {
                    if !alive {
                        assert forall|q: int|
                            0 <= q && q + 1 < fields@.len() && #[trigger] is_idle_key(fields@[q])
                                && (forall|j: int| 0 <= j < q ==> !is_idle_key(#[trigger] fields@[j]))
                            implies !(idle_of(fields@[q + 1]) < CONSUMER_ALIVE_THRESHOLD_MS) by {
                            if q != p {
                                if q < p {
                                    assert(!is_idle_key(fields@[q]));
                                } else {
                                    assert(!is_idle_key(fields@[p as int]));
                                }
                            }
                        }
                    } else {
                        assert(is_idle_key(fields@[p as int]));
                    }
                }
                return alive;
            } else {
                proof {
                    assert forall|q: int|
                        0 <= q && q + 1 < fields@.len() && #[trigger] is_idle_key(fields@[q])
                            && (forall|j: int| 0 <= j < q ==> !is_idle_key(#[trigger] fields@[j]))
                        implies false by {
                        if q > p {
                            assert(!is_idle_key(fields@[p as int]));
                        }
                    }
                }
                return false;
            }
        }
        p = p + 1;
    }
    false
}

/// Whether an `XINFO CONSUMERS` reply shows a live consumer. `None` stands for
/// a reply that is not a list, an entry `None` for one that is not a list of fields.
pub fn has_live_consumer(reply: &Option<Vec<Option<Vec<ReplyField>>>>) -> (r: bool)
    ensures
        r == reply_shows_live_consumer(
            match reply {
                Some(v) => Some(v@),
                None => None,
            },
        ),
{
    match reply {
        Some(entries) => {
            let mut k: usize = 0;
            while k < entries.len()
                invariant
                    reply matches Some(v) && v@ == entries@,
                    k <= entries@.len(),
                    forall|j: int| 0 <= j < k ==> !(#[trigger] entries@[j] matches Some(fields) && consumer_alive(fields@)),
                decreases entries@.len() - k,
            {
                match &entries[k] {
                    Some(fields) => {
                        if consumer_is_alive(fields) {
                            assert(entries@[k as int] matches Some(f) && consumer_alive(f@));
                            assert(reply_shows_live_consumer(Some(entries@)));
                            return true;
                        }
                    },
                    None => {},
                }
                k = k + 1;
            }
            false
        },
        None => false,
    }
}

/// Whether a reply shows a live consumer does not depend on where in the reply
/// the live consumer stands: a reply made of two parts shows one exactly when
/// either part does, so a dead consumer after a live one, or a live one before
/// any others, leaves the answer true; and a reply that is not a list shows none.
pub proof fn live_consumer_anywhere_in_reply(a: Seq<Option<Vec<ReplyField>>>, b: Seq<Option<Vec<ReplyField>>>)
    ensures
        reply_shows_live_consumer(Some(a + b)) <==> (reply_shows_live_consumer(Some(a)) || reply_shows_live_consumer(Some(b))),
        reply_shows_live_consumer(Some(a)) <==> exists|k: int|
            0 <= k < a.len() && (#[trigger] a[k] matches Some(f) && consumer_alive(f@)),
        !reply_shows_live_consumer(None),
{
    let ab = a + b;
    if reply_shows_live_consumer(Some(ab)) {
        let k = choose|k: int| 0 <= k < ab.len() && (#[trigger] ab[k] matches Some(f) && consumer_alive(f@));
        if k < a.len() {
            assert(ab[k] == a[k]);
        } else {
            assert(ab[k] == b[k - a.len()]);
        }
    }
    if reply_shows_live_consumer(Some(a)) {
        let k = choose|k: int| 0 <= k < a.len() && (#[trigger] a[k] matches Some(f) && consumer_alive(f@));
        assert(ab[k] == a[k]);
    }
    if reply_shows_live_consumer(Some(b)) {
        let k = choose|k: int| 0 <= k < b.len() && (#[trigger] b[k] matches Some(f) && consumer_alive(f@));
        assert(ab[k + a.len()] == b[k]);
    }
}

/// A consumer's liveness is read off the value right after its first `idle`
/// key, whatever comes after: it is alive exactly when that value reads as an
/// integer under the threshold.
pub proof fn liveness_read_after_first_idle_key(
    before: Seq<ReplyField>,
    key: ReplyField,
    value: ReplyField,
    after: Seq<ReplyField>,
)
    requires
        key.bulk matches Some(k) && k@ == seq![105u8, 100u8, 108u8, 101u8],
        forall|j: int| 0 <= j < before.len() ==> !(#[trigger] before[j].bulk matches Some(k) && k@ == seq![105u8, 100u8, 108u8, 101u8]),
    ensures
        consumer_alive(before.push(key).push(value) + after) <==> (value.as_int matches Some(idle) && idle < 10_000),
{
    let f = before.push(key).push(value) + after;
    let p = before.len() as int;
    assert(f[p] == key);
    assert(f[p + 1] == value);
    assert forall|j: int| 0 <= j < p implies !is_idle_key(#[trigger] f[j]) by {
        assert(f[j] == before[j]);
    }
    if value.as_int matches Some(idle) && idle < 10_000 {
        assert(is_idle_key(f[p]));
    }
    if consumer_alive(f) {
        let q = choose|q: int|
            0 <= q && q + 1 < f.len() && #[trigger] is_idle_key(f[q])
                && (forall|j: int| 0 <= j < q ==> !is_idle_key(#[trigger] f[j]))
                && idle_of(f[q + 1]) < CONSUMER_ALIVE_THRESHOLD_MS;
        if q < p {
            assert(f[q] == before[q]);
        }
        if q > p {
            assert(is_idle_key(f[p]));
        }
    }
}

/// Whether `text` contains `needle`.
pub open spec fn contains_text(text: Seq<char>, needle: Seq<char>) -> bool {
    exists|i: int| 0 <= i && i + needle.len() <= text.len() && #[trigger] text.subrange(i, i + needle.len()) == needle
}

/// Whether a failure to create a consumer group says the group exists already
/// (`BUSYGROUP`), which is no failure at all.
pub fn is_busygroup(message: &str) -> (r: bool)
    ensures
        r == contains_text(message@, "BUSYGROUP"@),
{
    let needle = "BUSYGROUP";
    proof {
        reveal_strlit("BUSYGROUP");
    }
    let n = message.unicode_len();
    let m: usize = 9;
    assert(needle@.len() == m);
    if n < m {
        return false;
    }
    let mut i: usize = 0;
    while i <= n - m
        invariant
            n == message@.len(),
            m == needle@.len(),
            needle@ == "BUSYGROUP"@,
            m <= n,
            i <= n - m + 1,
            forall|k: int| 0 <= k < i ==> #[trigger] message@.subrange(k, k + m) != needle@,
        decreases n - i,
    {
        let mut j: usize = 0;
        let mut same = true;
        while j < m
            invariant
                n == message@.len(),
                m == needle@.len(),
                needle@ == "BUSYGROUP"@,
                i + m <= n,
                j <= m,
                same == (forall|l: int| 0 <= l < j ==> message@[i + l] == needle@[l]),
            decreases m - j,
        {
            if message.get_char(i + j) != needle.get_char(j) {
                same = false;
            }
            j = j + 1;
        }
        if same {
            assert(message@.subrange(i as int, i + m) =~= needle@);
            return true;
        } else {
            assert(message@.subrange(i as int, i + m) != needle@) by {
                let l = choose|l: int| 0 <= l < m && message@[i + l] != needle@[l];
                assert(message@.subrange(i as int, i + m)[l] == message@[i + l]);
            }
        }
        i = i + 1;
    }
    false
}

/// Whether one more connection failure, after `prior_failures` in a row,
/// reaches the limit at which the problem is escalated (and the count starts over).
pub fn failure_limit_reached(prior_failures: u32) -> (r: bool)
    ensures
        r == (prior_failures + 1 >= MAX_CONNECTION_FAILURES),
{
    (prior_failures as u64) + 1 >= MAX_CONNECTION_FAILURES as u64
}

} // verus!
