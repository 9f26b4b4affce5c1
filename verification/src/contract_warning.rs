//! Warnings about samples that break their value contract, at most one per topic and
//! interval.

use vstd::prelude::*;
use vstd::string::*;

use crate::ordered::OrderedMap;

verus! {

/// How long a topic's warning silences the next one: ten seconds.
pub const WARNING_INTERVAL_NS: u64 = 10_000_000_000;

/// Whether a warning at `last` still silences others at `now`.
pub open spec fn fresh(last: u64, now: u64) -> bool {
    now - last < WARNING_INTERVAL_NS
}

/// The warnings that still silence others.
pub open spec fn fresh_warnings(warnings: Map<Seq<char>, u64>, now: u64) -> Map<Seq<char>, u64> {
    Map::new(
        |key: Seq<char>| warnings.dom().contains(key) && fresh(warnings[key], now),
        |key: Seq<char>| warnings[key],
    )
}

/// Whether a topic is warned about.
pub open spec fn warns(warnings: Map<Seq<char>, u64>, key: Seq<char>, now: u64) -> bool {
    !fresh_warnings(warnings, now).dom().contains(key)
}

/// The warnings after one was due for a topic.
pub open spec fn after_warning(
    warnings: Map<Seq<char>, u64>,
    key: Seq<char>,
    now: u64,
) -> Map<Seq<char>, u64> {
    if warns(warnings, key, now) {
        fresh_warnings(warnings, now).insert(key, now)
    } else {
        fresh_warnings(warnings, now)
    }
}

/// The last warning of each topic that was warned about not long ago.
#[derive(Debug)]
pub struct ContractWarningThrottle {
    last_warning: OrderedMap<u64>,
}

impl View for ContractWarningThrottle {
    type V = Map<Seq<char>, u64>;

    closed spec fn view(&self) -> Map<Seq<char>, u64> {
        self.last_warning@
    }
}

impl Default for ContractWarningThrottle {
    fn default() -> (r: ContractWarningThrottle)
        ensures
            r.wf(),
            r@ == Map::<Seq<char>, u64>::empty(),
    {
        ContractWarningThrottle { last_warning: OrderedMap::new() }
    }
}

impl ContractWarningThrottle {
    /// The warnings are in order.
    pub closed spec fn wf(self) -> bool {
        self.last_warning.wf()
    }

    /// When a topic was last warned about.
    pub fn last_warning(&self, key: &str) -> (r: Option<u64>)
        requires
            self.wf(),
        ensures
            r == if self@.dom().contains(key@) {
                Some(self@[key@])
            } else {
                None
            },
    {
        match self.last_warning.get(key) {
            Some(last) => Some(*last),
            None => None,
        }
    }

    /// The number of topics that are silenced.
    pub fn len(&self) -> (r: usize)
        requires
            self.wf(),
        ensures
            r == self@.dom().len(),
    {
        proof {
            self.last_warning.lemma_len();
        }
        self.last_warning.len()
    }

    fn drop_stale(&mut self, now_ns: u64)
        requires
            old(self).wf(),
        ensures
            final(self).wf(),
            final(self)@ == fresh_warnings(old(self)@, now_ns),
    {
        let ghost was = *self;
        let ghost keys = self.last_warning.key_list();
        let ghost values = self.last_warning.value_list();
        proof {
            self.last_warning.lemma_lists();
        }
        let mut kept: OrderedMap<u64> = OrderedMap::new();
        let mut i: usize = 0;
        while i < self.last_warning.len()
            invariant
                self.last_warning.wf(),
                keys == self.last_warning.key_list(),
                values == self.last_warning.value_list(),
                crate::ordered::lists(keys, values, self.last_warning@),
                i <= keys.len(),
                kept.wf(),
                forall|k: Seq<char>| #[trigger]
                    kept@.dom().contains(k) ==> self.last_warning@.dom().contains(k) && fresh(
                        self.last_warning@[k],
                        now_ns,
                    ) && kept@[k] == self.last_warning@[k],
                forall|j: int|
                    0 <= j < i && fresh(values[j], now_ns) ==> kept@.dom().contains(
                        #[trigger] keys[j],
                    ),
            decreases keys.len() - i,
        {
            let last: u64 = *self.last_warning.value_at(i);
            assert(self.last_warning@.dom().contains(keys[i as int]));
            if last > now_ns || now_ns - last < WARNING_INTERVAL_NS {
                kept.insert(self.last_warning.key_at(i).clone(), last);
            }
            i = i + 1;
        }
        proof {
            let want = fresh_warnings(was@, now_ns);
            assert forall|k: Seq<char>| want.dom().contains(k) implies kept@.dom().contains(k) by {
                assert(was.last_warning@.dom().contains(k));
                let j = keys.index_of(k);
                assert(keys[j] == k);
            }
            assert(kept@ =~= want);
        }
        self.last_warning = kept;
    }

    /// A sample on `key` was rejected at `now_ns`. The warning about it is returned unless
    /// one was given for that key not long ago.
    pub fn warn(&mut self, key: &str, error: &str, now_ns: u64) -> (r: Option<String>)
        requires
            old(self).wf(),
        ensures
            final(self).wf(),
            final(self)@ == after_warning(old(self)@, key@, now_ns),
            r is Some <==> warns(old(self)@, key@, now_ns),
            r matches Some(warning) ==> warning@ == "warning: rejecting "@ + key@ + ": "@ + error@,
    {
        self.drop_stale(now_ns);
        if self.last_warning.contains_key(key) {
            return None;
        }
        self.last_warning.insert(key.to_owned(), now_ns);
        let mut warning = "warning: rejecting ".to_owned();
        warning.append(key);
        warning.append(": ");
        warning.append(error);
        Some(warning)
    }
}

/// A topic that was warned about is not warned about again before the interval is over,
/// and is when it is over.
pub proof fn warned_once_per_interval(
    warnings: Map<Seq<char>, u64>,
    key: Seq<char>,
    first: u64,
    second: u64,
)
    requires
        warns(warnings, key, first),
        first <= second,
    ensures
        warns(after_warning(warnings, key, first), key, second) <==> second - first
            >= WARNING_INTERVAL_NS,
{
}

/// What is due for one topic changes nothing for another.
pub proof fn topics_are_warned_about_apart(
    warnings: Map<Seq<char>, u64>,
    key: Seq<char>,
    other: Seq<char>,
    first: u64,
    second: u64,
)
    requires
        key != other,
        first <= second,
    ensures
        warns(after_warning(warnings, key, first), other, second) == warns(warnings, other, second),
{
}

/// Topics that are silent no longer are forgotten.
pub proof fn stale_warnings_are_forgotten(
    warnings: Map<Seq<char>, u64>,
    key: Seq<char>,
    other: Seq<char>,
    now: u64,
)
    requires
        after_warning(warnings, key, now).dom().contains(other),
    ensures
        fresh(after_warning(warnings, key, now)[other], now),
{
}

/// A topic that was not warned about yet is warned about, and that is noted; one that is
/// not warned about was, less than ten seconds ago or at a time that is still to come, and
/// that time stays noted.
pub proof fn silence_means_a_warning_less_than_ten_seconds_ago(
    warnings: Map<Seq<char>, u64>,
    key: Seq<char>,
    now: u64,
)
    ensures
        !warnings.dom().contains(key) ==> warns(warnings, key, now),
        warns(warnings, key, now) ==> after_warning(warnings, key, now).dom().contains(key)
            && after_warning(warnings, key, now)[key] == now,
        !warns(warnings, key, now) ==> warnings.dom().contains(key) && now - warnings[key]
            < 10_000_000_000 && after_warning(warnings, key, now).dom().contains(key)
            && after_warning(warnings, key, now)[key] == warnings[key],
        warnings.dom().contains(key) && now - warnings[key] >= 10_000_000_000 ==> warns(
            warnings,
            key,
            now,
        ),
{
}

} // verus!
