//! The keys whose values are being fetched. A fetch for a key begins only
//! while no other fetch for that key is under way, so that a source is
//! never asked twice at once for the same key.

use crate::captures::str_equal;
use vstd::prelude::*;

verus! {

/// The keys whose values are being fetched.
#[derive(Debug)]
pub struct Flights {
    keys: Vec<String>,
}

/// Whether no key stands twice in `keys`.
pub open spec fn distinct_keys(keys: Seq<String>) -> bool {
    forall|i: int, j: int| 0 <= i < j < keys.len() ==> (#[trigger] keys[i])@ != (#[trigger] keys[j])@
}

impl View for Flights {
    type V = Set<Seq<char>>;

    closed spec fn view(&self) -> Set<Seq<char>> {
        Set::new(|key: Seq<char>| exists|i: int| 0 <= i < self.keys@.len() && self.keys@[i]@ == key)
    }
}

impl Flights {
    #[verifier::type_invariant]
    spec fn well_formed(&self) -> bool {
        distinct_keys(self.keys@)
    }

    /// No fetch is under way.
    pub fn new() -> (f: Self)
        ensures
            f@ == Set::<Seq<char>>::empty(),
    {
        let f = Flights { keys: Vec::new() };
        assert(f@ =~= Set::<Seq<char>>::empty());
        f
    }

    fn find(&self, key: &str) -> (r: Option<usize>)
        ensures
            match r {
                Some(i) => i < self.keys@.len() && self.keys@[i as int]@ == key@,
                None => forall|k: int| 0 <= k < self.keys@.len() ==> self.keys@[k]@ != key@,
            },
    {
        let mut i: usize = 0;
        while i < self.keys.len()
            invariant
                i <= self.keys.len(),
                forall|k: int| 0 <= k < i ==> self.keys@[k]@ != key@,
            decreases self.keys.len() - i,
        {
            if str_equal(self.keys[i].as_str(), key) {
                return Some(i);
            }
            i += 1;
        }
        None
    }

    /// Whether a fetch for `key` is under way.
    pub fn contains(&self, key: &str) -> (r: bool)
        ensures
            r == self@.contains(key@),
    {
        self.find(key).is_some()
    }

    /// How many fetches are under way.
    pub fn len(&self) -> (n: usize)
        ensures
            n == self@.len(),
            self@.finite(),
    {
        proof {
            use_type_invariant(self);
            lemma_count(self.keys@);
            assert(self@ =~= key_set(self.keys@));
        }
        self.keys.len()
    }

    /// Asks to begin a fetch for `key`. It is granted unless a fetch for
    /// the key is under way; one is under way afterwards either way.
    pub fn begin(&mut self, key: &str) -> (granted: bool)
        ensures
            granted == !old(self)@.contains(key@),
            final(self)@ == old(self)@.insert(key@),
    {
        proof {
            use_type_invariant(&*self);
        }
        match self.find(key) {
            Some(_) => {
                assert(final(self)@ =~= old(self)@.insert(key@));
                false
            },
            None => {
                let ghost before = self.keys@;
                let mut keys: Vec<String> = Vec::new();
                std::mem::swap(&mut keys, &mut self.keys);
                keys.push(key.to_owned());
                self.keys = keys;
                proof {
                    assert forall|k: Seq<char>| final(self)@.contains(k) == old(self)@.insert(
                        key@,
                    ).contains(k) by {
                        if old(self)@.contains(k) {
                            let i = choose|i: int| 0 <= i < before.len() && before[i]@ == k;
                            assert(self.keys@[i]@ == k);
                        }
                        if k == key@ {
                            assert(self.keys@[before.len() as int]@ == k);
                        }
                        if final(self)@.contains(k) {
                            let i = choose|i: int|
                                0 <= i < self.keys@.len() && self.keys@[i]@ == k;
                            if i < before.len() {
                                assert(before[i]@ == k);
                            }
                        }
                    }
                    assert(final(self)@ =~= old(self)@.insert(key@));
                }
                true
            },
        }
    }

    /// Ends the fetch for `key`: none is under way afterwards.
    pub fn end(&mut self, key: &str)
        ensures
            final(self)@ == old(self)@.remove(key@),
    {
        proof {
            use_type_invariant(&*self);
        }
        match self.find(key) {
            Some(i) => {
                let ghost before = self.keys@;
                let mut keys: Vec<String> = Vec::new();
                std::mem::swap(&mut keys, &mut self.keys);
                keys.swap_remove(i);
                let ghost after = keys@;
                proof {
                    assert forall|a: int, b: int| 0 <= a < b < after.len() implies (
                    #[trigger] after[a])@ != (#[trigger] after[b])@ by {
                        let x = if a == i {
                            before.len() - 1
                        } else {
                            a
                        };
                        let y = if b == i {
                            before.len() - 1
                        } else {
                            b
                        };
                        assert(after[a] == before[x]);
                        assert(after[b] == before[y]);
                        if x < y {
                            assert(before[x]@ != before[y]@);
                        } else {
                            assert(before[y]@ != before[x]@);
                        }
                    }
                }
                self.keys = keys;
                proof {
                    assert forall|k: Seq<char>| final(self)@.contains(k) == old(self)@.remove(
                        key@,
                    ).contains(k) by {
                        if final(self)@.contains(k) {
                            let a = choose|a: int| 0 <= a < after.len() && after[a]@ == k;
                            let x = if a == i {
                                before.len() - 1
                            } else {
                                a
                            };
                            assert(after[a] == before[x]);
                            if x < i {
                                assert(before[x]@ != before[i as int]@);
                            } else {
                                assert(before[i as int]@ != before[x]@);
                            }
                        }
                        if old(self)@.contains(k) && k != key@ {
                            let x = choose|x: int| 0 <= x < before.len() && before[x]@ == k;
                            if x == before.len() - 1 {
                                assert(after[i as int]@ == k);
                            } else {
                                assert(after[x]@ == k);
                            }
                        }
                    }
                    assert(final(self)@ =~= old(self)@.remove(key@));
                }
            },
            None => {
                assert(final(self)@ =~= old(self)@.remove(key@));
            },
        }
    }
}

/// The keys that stand in `keys`.
pub open spec fn key_set(keys: Seq<String>) -> Set<Seq<char>> {
    Set::new(|key: Seq<char>| exists|i: int| 0 <= i < keys.len() && keys[i]@ == key)
}

proof fn lemma_count(keys: Seq<String>)
    requires
        distinct_keys(keys),
    ensures
        key_set(keys).finite(),
        key_set(keys).len() == keys.len(),
    decreases keys.len(),
{
    if keys.len() == 0 {
        assert(key_set(keys) =~= Set::<Seq<char>>::empty());
    } else {
        let front = keys.drop_last();
        let last = keys.last()@;
        lemma_count(front);
        assert(!key_set(front).contains(last)) by {
            if key_set(front).contains(last) {
                let i = choose|i: int| 0 <= i < front.len() && front[i]@ == last;
                assert(keys[i]@ != keys[keys.len() - 1]@);
            }
        }
        assert(key_set(keys) =~= key_set(front).insert(last)) by {
            assert forall|k: Seq<char>| key_set(keys).contains(k) == key_set(front).insert(
                last,
            ).contains(k) by {
                if key_set(keys).contains(k) {
                    let i = choose|i: int| 0 <= i < keys.len() && keys[i]@ == k;
                    if i < front.len() {
                        assert(front[i]@ == k);
                    }
                }
                if key_set(front).contains(k) {
                    let i = choose|i: int| 0 <= i < front.len() && front[i]@ == k;
                    assert(keys[i]@ == k);
                }
                if k == last {
                    assert(keys[keys.len() - 1]@ == k);
                }
            }
        }
    }
}

//- The law -----------------------------------------------------------------------
/// What happens to the fetches: one is asked to begin, or one ends.
pub enum FlightEvent {
    Begin(Seq<char>),
    End(Seq<char>),
}

/// The keys with a fetch under way after `events`, none being under way
/// before them.
pub open spec fn under_way(events: Seq<FlightEvent>) -> Set<Seq<char>>
    decreases events.len(),
{
    if events.len() == 0 {
        Set::empty()
    } else {
        match events.last() {
            FlightEvent::Begin(key) => under_way(events.drop_last()).insert(key),
            FlightEvent::End(key) => under_way(events.drop_last()).remove(key),
        }
    }
}

/// How many fetches for `key` run after `events`: those that were granted
/// to begin, less those that ended.
pub open spec fn running(events: Seq<FlightEvent>, key: Seq<char>) -> int
    decreases events.len(),
{
    if events.len() == 0 {
        0
    } else {
        let before = events.drop_last();
        match events.last() {
            FlightEvent::Begin(k) => if k == key && !under_way(before).contains(key) {
                running(before, key) + 1
            } else {
                running(before, key)
            },
            FlightEvent::End(k) => if k == key && under_way(before).contains(key) {
                running(before, key) - 1
            } else {
                running(before, key)
            },
        }
    }
}

/// At most one fetch runs for a key, whatever was asked and in whatever
/// order: one runs where a fetch for the key is under way, none where
/// none is.
pub proof fn lemma_at_most_one_in_flight(events: Seq<FlightEvent>, key: Seq<char>)
    ensures
        running(events, key) == if under_way(events).contains(key) {
            1int
        } else {
            0int
        },
        0 <= running(events, key) <= 1,
    decreases events.len(),
{
    if events.len() > 0 {
        lemma_at_most_one_in_flight(events.drop_last(), key);
    }
}

} // verus!
