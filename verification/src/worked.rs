//! Which stations have been worked on which band, and when.

use vstd::prelude::*;
use vstd::string::*;

use crate::clock;
use crate::clock::Timestamp;
use crate::text;

verus! {

/// For how long a worked station is not called again on the same band: a day.
pub const RECENT_WORKED_RETENTION: u128 = 86_400_000_000_000;

#[derive(Debug)]
pub struct WorkedBand {
    pub callsign: String,
    pub band: String,
    pub worked_at: Timestamp,
}

/// The time at which each station was last worked on each band.
#[derive(Debug)]
pub struct WorkedLog {
    items: Vec<WorkedBand>,
}

pub type WorkedModel = Map<(Seq<char>, Seq<char>), Timestamp>;

/// The station was worked on the band within the last day.
pub open spec fn worked_recently(
    worked: WorkedModel,
    callsign: Seq<char>,
    band: Option<Seq<char>>,
    now: Timestamp,
) -> bool {
    match band {
        Some(b) => worked.contains_key((callsign, b)) && clock::since(now, worked[(callsign, b)])
            <= RECENT_WORKED_RETENTION,
        None => false,
    }
}

/// What was worked within the last day.
pub open spec fn recent_only(worked: WorkedModel, now: Timestamp) -> WorkedModel {
    Map::new(
        |k: (Seq<char>, Seq<char>)|
            worked.contains_key(k) && clock::since(now, worked[k]) <= RECENT_WORKED_RETENTION,
        |k: (Seq<char>, Seq<char>)| worked[k],
    )
}

/// Both records in one: for a station and band in both, the later time.
pub open spec fn later_of(a: WorkedModel, b: WorkedModel) -> WorkedModel {
    Map::new(
        |k: (Seq<char>, Seq<char>)| a.contains_key(k) || b.contains_key(k),
        |k: (Seq<char>, Seq<char>)|
            if a.contains_key(k) && (!b.contains_key(k) || a[k] >= b[k]) {
                a[k]
            } else {
                b[k]
            },
    )
}

impl View for WorkedLog {
    type V = WorkedModel;

    closed spec fn view(&self) -> WorkedModel {
        Map::new(
            |k: (Seq<char>, Seq<char>)| self.keys().contains(k),
            |k: (Seq<char>, Seq<char>)| self.items@[self.keys().index_of(k)].worked_at,
        )
    }
}

impl WorkedLog {
    /// Station and band of each item.
    pub closed spec fn keys(&self) -> Seq<(Seq<char>, Seq<char>)> {
        self.items@.map_values(|w: WorkedBand| (w.callsign@, w.band@))
    }

    pub open spec fn wf(&self) -> bool {
        self.keys().no_duplicates()
    }

    proof fn lemma_items(&self)
        requires
            self.wf(),
        ensures
            self.keys().len() == self.items@.len(),
            forall|i: int|
                0 <= i < self.items@.len() ==> self@.contains_key(#[trigger] self.keys()[i])
                    && self@[self.keys()[i]] == self.items@[i].worked_at,
    {
        assert forall|i: int| 0 <= i < self.items@.len() implies self@.contains_key(
            #[trigger] self.keys()[i],
        ) && self@[self.keys()[i]] == self.items@[i].worked_at by {
            assert(self.keys().contains(self.keys()[i]));
            assert(self.keys()[self.keys().index_of(self.keys()[i])] == self.keys()[i]);
        }
    }

    pub fn new() -> (r: Self)
        ensures
            r.wf(),
            r@ == WorkedModel::empty(),
    {
        let r = WorkedLog { items: Vec::new() };
        assert(r@ =~= WorkedModel::empty());
        r
    }

    fn locate(&self, callsign: &str, band: &str) -> (r: usize)
        requires
            self.wf(),
        ensures
            r <= self.items@.len(),
            r < self.items@.len() ==> self.keys()[r as int] == (callsign@, band@),
            r == self.items@.len() ==> !self@.contains_key((callsign@, band@)),
    {
        let mut i: usize = 0;
        while i < self.items.len()
            invariant
                i <= self.items@.len(),
                self.keys().len() == self.items@.len(),
                forall|k: int| 0 <= k < i ==> #[trigger] self.keys()[k] != (callsign@, band@),
            decreases self.items@.len() - i,
        {
            if text::str_eq(self.items[i].callsign.as_str(), callsign) && text::str_eq(
                self.items[i].band.as_str(),
                band,
            ) {
                return i;
            }
            i += 1;
        }
        i
    }

    pub fn get(&self, callsign: &str, band: &str) -> (r: Option<Timestamp>)
        requires
            self.wf(),
        ensures
            r == (if self@.contains_key((callsign@, band@)) {
                Some(self@[(callsign@, band@)])
            } else {
                None
            }),
    {
        proof {
            self.lemma_items();
        }
        let i: usize = self.locate(callsign, band);
        if i < self.items.len() {
            Some(self.items[i].worked_at)
        } else {
            None
        }
    }

    /// Records that the station was worked on the band at that time.
    pub fn insert(&mut self, callsign: &str, band: &str, worked_at: Timestamp)
        requires
            old(self).wf(),
        ensures
            final(self).wf(),
            final(self)@ == old(self)@.insert((callsign@, band@), worked_at),
    {
        let ghost before = *self;
        let ghost key = (callsign@, band@);
        let item = WorkedBand { callsign: callsign.to_owned(), band: band.to_owned(), worked_at };
        let i: usize = self.locate(callsign, band);
        proof {
            before.lemma_items();
        }
        if i < self.items.len() {
            self.items.set(i, item);
            assert(self.keys() =~= before.keys());
        } else {
            self.items.push(item);
            assert(self.keys() =~= before.keys().push(key));
            assert(!before.keys().contains(key));
        }
        proof {
            self.lemma_items();
            assert(self.keys()[i as int] == key);
            assert forall|k: (Seq<char>, Seq<char>)| #[trigger] self@.contains_key(k) implies before@.insert(
                key,
                worked_at,
            ).contains_key(k) && before@.insert(key, worked_at)[k] == self@[k] by {
                let j = self.keys().index_of(k);
                assert(self.keys()[j] == k);
                assert(self@[self.keys()[j]] == self.items@[j].worked_at);
                if k != key {
                    assert(before.keys()[j] == k);
                    assert(before@[before.keys()[j]] == before.items@[j].worked_at);
                }
            }
            assert forall|k: (Seq<char>, Seq<char>)| #[trigger] before@.insert(key, worked_at).contains_key(
                k,
            ) implies self@.contains_key(k) by {
                if k == key {
                    assert(self@.contains_key(self.keys()[i as int]));
                } else {
                    let j = before.keys().index_of(k);
                    assert(before.keys()[j] == k);
                    assert(self.keys()[j] == k);
                    assert(self@.contains_key(self.keys()[j]));
                }
            }
            assert(self@ =~= before@.insert(key, worked_at));
        }
    }

    /// Forgets what was worked more than a day ago.
    pub fn retain_recent(&mut self, now: Timestamp)
        requires
            old(self).wf(),
        ensures
            final(self).wf(),
            final(self)@ == recent_only(old(self)@, now),
    {
        let ghost start = *self;
        let mut i: usize = 0;
        let ghost mut gone = Set::<(Seq<char>, Seq<char>)>::empty();
        proof {
            start.lemma_items();
            assert(self@ =~= start@.remove_keys(gone));
        }
        while i < self.items.len()
            invariant
                i <= self.items@.len(),
                self.wf(),
                start.wf(),
                self@ == start@.remove_keys(gone),
                forall|k: (Seq<char>, Seq<char>)| #[trigger]
                    gone.contains(k) ==> start@.contains_key(k) && clock::since(now, start@[k])
                        > RECENT_WORKED_RETENTION,
                self.keys().len() == self.items@.len(),
                forall|k: int|
                    0 <= k < i ==> clock::since(now, (#[trigger] self.items@[k]).worked_at)
                        <= RECENT_WORKED_RETENTION,
            decreases self.items@.len() - i,
        {
            if clock::elapsed(now, self.items[i].worked_at) <= RECENT_WORKED_RETENTION {
                i += 1;
            } else {
                let ghost before = *self;
                let ghost key = self.keys()[i as int];
                let _ = self.items.remove(i);
                proof {
                    before.lemma_items();
                    assert(self.keys() =~= before.keys().remove(i as int));
                    self.lemma_items();
                    assert(before@.contains_key(before.keys()[i as int]));
                    assert forall|k: (Seq<char>, Seq<char>)| #[trigger] self@.contains_key(k) implies before@.remove(
                        key,
                    ).contains_key(k) && before@.remove(key)[k] == self@[k] by {
                        let j = self.keys().index_of(k);
                        assert(self.keys()[j] == k);
                        assert(self@[self.keys()[j]] == self.items@[j].worked_at);
                        let m = if j < i { j } else { j + 1 };
                        assert(before.keys()[m] == k);
                        assert(before@[before.keys()[m]] == before.items@[m].worked_at);
                    }
                    assert forall|k: (Seq<char>, Seq<char>)| #[trigger] before@.remove(key).contains_key(
                        k,
                    ) implies self@.contains_key(k) by {
                        let m = before.keys().index_of(k);
                        assert(before.keys()[m] == k);
                        let j = if m < i { m } else { m - 1 };
                        assert(self.keys()[j] == k);
                        assert(self@.contains_key(self.keys()[j]));
                    }
                    assert(self@ =~= before@.remove(key));
                    gone = gone.insert(key);
                    assert(self@ =~= start@.remove_keys(gone));
                }
            }
        }
        proof {
            self.lemma_items();
            assert forall|k: (Seq<char>, Seq<char>)| #[trigger] self@.contains_key(k) implies clock::since(
                now,
                start@[k],
            ) <= RECENT_WORKED_RETENTION by {
                let j = self.keys().index_of(k);
                assert(self.keys()[j] == k);
                assert(self@[self.keys()[j]] == self.items@[j].worked_at);
            }
            assert(self@ =~= recent_only(start@, now));
        }
    }

    /// Takes over what `other` has; where both have something, the later.
    pub fn merge(&mut self, other: &WorkedLog)
        requires
            old(self).wf(),
            other.wf(),
        ensures
            final(self).wf(),
            final(self)@ == later_of(old(self)@, other@),
    {
        let ghost start = self@;
        let mut i: usize = 0;
        proof {
            other.lemma_items();
        }
        while i < other.items.len()
            invariant
                i <= other.items@.len(),
                self.wf(),
                other.wf(),
                other.keys().len() == other.items@.len(),
                forall|k: int|
                    0 <= k < other.items@.len() ==> other@.contains_key(#[trigger] other.keys()[k])
                        && other@[other.keys()[k]] == other.items@[k].worked_at,
                forall|k: int| 0 <= k < i ==> self@.contains_key(#[trigger] other.keys()[k]),
                forall|k: (Seq<char>, Seq<char>)| #[trigger]
                    self@.contains_key(k) <==> start.contains_key(k) || other.keys().take(
                        i as int,
                    ).contains(k),
                forall|k: (Seq<char>, Seq<char>)| #[trigger]
                    self@.contains_key(k) ==> self@[k] == (if other.keys().take(i as int).contains(
                        k,
                    ) {
                        later_of(start, other@)[k]
                    } else {
                        start[k]
                    }),
            decreases other.items@.len() - i,
        {
            let ghost before = self@;
            let ghost key = other.keys()[i as int];
            let item = &other.items[i];
            let known = self.get(item.callsign.as_str(), item.band.as_str());
            let newer = match known {
                Some(at) => at < item.worked_at,
                None => true,
            };
            proof {
                let earlier = other.keys().take(i as int);
                let next = other.keys().take(i + 1);
                assert(next =~= earlier.push(key));
                assert(!earlier.contains(key)) by {
                    if earlier.contains(key) {
                        let j = earlier.index_of(key);
                        assert(other.keys()[j] == other.keys()[i as int]);
                    }
                }
                assert forall|k: (Seq<char>, Seq<char>)| #[trigger] next.contains(k) <==> (
                earlier.contains(k) || k == key) by {
                    if earlier.contains(k) {
                        let j = earlier.index_of(k);
                        assert(next[j] == k);
                    }
                    assert(next[i as int] == key);
                }
                assert(other@.contains_key(key) && other@[key] == item.worked_at);
            }
            if newer {
                self.insert(item.callsign.as_str(), item.band.as_str(), item.worked_at);
            }
            i += 1;
            proof {
                assert forall|k: (Seq<char>, Seq<char>)| #[trigger] self@.contains_key(k) implies self@[k]
                    == (if other.keys().take(i as int).contains(k) {
                    later_of(start, other@)[k]
                } else {
                    start[k]
                }) by {
                    if k != key {
                        assert(before.contains_key(k));
                        assert(before[k] == self@[k]);
                    } else if !newer {
                        assert(before.contains_key(key));
                        assert(start.contains_key(key));
                    }
                }
                assert forall|k: (Seq<char>, Seq<char>)| #[trigger] self@.contains_key(k) <==> (
                start.contains_key(k) || other.keys().take(i as int).contains(k)) by {
                    assert(before.contains_key(k) <==> start.contains_key(k) || other.keys().take(
                        i - 1,
                    ).contains(k));
                }
            }
        }
        proof {
            let all = other.keys().take(i as int);
            assert(all =~= other.keys());
            assert forall|k: (Seq<char>, Seq<char>)| #[trigger] other@.contains_key(k) implies all.contains(k) by {
                assert(other.keys().contains(k));
            }
            assert forall|k: (Seq<char>, Seq<char>)| #[trigger] all.contains(k) implies other@.contains_key(k) by {
                let j = all.index_of(k);
                assert(other.keys()[j] == k);
            }
            assert(self@ =~= later_of(start, other@));
        }
    }

    /// Whether the station was worked on the band within the last day; never where no band is known.
    pub fn was_worked_recently(
        &self,
        callsign: &str,
        band: Option<&str>,
        now: Timestamp,
    ) -> (r: bool)
        requires
            self.wf(),
        ensures
            r == worked_recently(self@, callsign@, text::str_opt(band), now),
    {
        match band {
            Some(b) => match self.get(callsign, b) {
                Some(at) => clock::elapsed(now, at) <= RECENT_WORKED_RETENTION,
                None => false,
            },
            None => false,
        }
    }
}

/// Having worked a station on one band says nothing of another band.
pub proof fn law_worked_per_band(
    worked: WorkedModel,
    callsign: Seq<char>,
    band: Seq<char>,
    worked_at: Timestamp,
    other: Seq<char>,
    now: Timestamp,
)
    requires
        band != other,
    ensures
        worked_recently(worked.insert((callsign, band), worked_at), callsign, Some(other), now)
            == worked_recently(worked, callsign, Some(other), now),
{
}

/// A station that has been worked on a band counts as worked there for a day, and no longer.
pub proof fn law_worked_for_a_day(
    worked: WorkedModel,
    callsign: Seq<char>,
    band: Seq<char>,
    worked_at: Timestamp,
    now: Timestamp,
)
    ensures
        worked_recently(worked.insert((callsign, band), worked_at), callsign, Some(band), now) <==>
            clock::since(now, worked_at) <= RECENT_WORKED_RETENTION,
        worked_recently(worked.insert((callsign, band), worked_at), callsign, Some(band), now) <==>
            now - worked_at <= 24 * 60 * 60 * 1_000_000_000,
        !worked_recently(worked, callsign, None, now),
        !worked_recently(worked.remove((callsign, band)), callsign, Some(band), now),
{
}

/// Forgetting what is old changes no answer.
pub proof fn law_forgetting_changes_no_answer(
    worked: WorkedModel,
    callsign: Seq<char>,
    band: Option<Seq<char>>,
    now: Timestamp,
)
    ensures
        worked_recently(recent_only(worked, now), callsign, band, now) == worked_recently(
            worked,
            callsign,
            band,
            now,
        ),
{
}

/// Two records of what was worked make one: a station counts in it on a band when it does in either,
/// with the later time of the two.
pub proof fn law_records_of_worked_are_joined(
    a: WorkedModel,
    b: WorkedModel,
    key: (Seq<char>, Seq<char>),
)
    ensures
        later_of(a, b).contains_key(key) <==> a.contains_key(key) || b.contains_key(key),
        a.contains_key(key) ==> later_of(a, b)[key] >= a[key],
        b.contains_key(key) ==> later_of(a, b)[key] >= b[key],
        later_of(a, b).contains_key(key) ==> (a.contains_key(key) && later_of(a, b)[key] == a[key])
            || (b.contains_key(key) && later_of(a, b)[key] == b[key]),
{
}

/// What was worked more than a day ago is forgotten, and nothing else.
pub proof fn law_a_day_is_remembered(
    worked: WorkedModel,
    now: Timestamp,
    key: (Seq<char>, Seq<char>),
)
    ensures
        recent_only(worked, now).contains_key(key) <==> worked.contains_key(key) && now
            - worked[key] <= 24 * 60 * 60 * 1_000_000_000,
        recent_only(worked, now).contains_key(key) ==> recent_only(worked, now)[key] == worked[key],
{
}

} // verus!
