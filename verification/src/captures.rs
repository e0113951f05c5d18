//! The capture map of a request: names and the text each stands for.

use vstd::prelude::*;
use vstd::string::*;

verus! {

/// A map from names to text. No name occurs twice.
#[derive(Debug)]
pub struct Captures {
    entries: Vec<(String, String)>,
}

/// Whether no name occurs twice among `entries`.
pub open spec fn distinct_names(entries: Seq<(String, String)>) -> bool {
    forall|i: int, j: int|
        0 <= i < entries.len() && 0 <= j < entries.len() && (#[trigger] entries[i]).0@ == (
        #[trigger] entries[j]).0@ ==> i == j
}

/// Whether `name` is the name of one of `entries`.
pub open spec fn names(entries: Seq<(String, String)>, name: Seq<char>) -> bool {
    exists|i: int| 0 <= i < entries.len() && (#[trigger] entries[i]).0@ == name
}

/// The place of `name` among `entries`.
pub open spec fn place_of(entries: Seq<(String, String)>, name: Seq<char>) -> int {
    choose|i: int| 0 <= i < entries.len() && (#[trigger] entries[i]).0@ == name
}

/// The bytes that the names and texts of `entries` take as UTF-8.
pub open spec fn bytes_of(entries: Seq<(String, String)>) -> nat
    decreases entries.len(),
{
    if entries.len() == 0 {
        0
    } else {
        bytes_of(entries.drop_last()) + vstd::utf8::encode_utf8(entries.last().0@).len()
            + vstd::utf8::encode_utf8(entries.last().1@).len()
    }
}

/// The map that `entries` stand for.
pub open spec fn as_map(entries: Seq<(String, String)>) -> Map<Seq<char>, Seq<char>> {
    Map::new(
        |name: Seq<char>| names(entries, name),
        |name: Seq<char>| entries[place_of(entries, name)].1@,
    )
}

impl View for Captures {
    type V = Map<Seq<char>, Seq<char>>;

    closed spec fn view(&self) -> Map<Seq<char>, Seq<char>> {
        as_map(self.entries@)
    }
}

impl Clone for Captures {
    fn clone(&self) -> (r: Self)
        ensures
            r@ == self@,
            r.count() == self.count(),
    {
        proof {
            use_type_invariant(self);
        }
        let mut entries: Vec<(String, String)> = Vec::new();
        let mut i: usize = 0;
        while i < self.entries.len()
            invariant
                i <= self.entries.len(),
                entries@.len() == i,
                forall|k: int|
                    0 <= k < i ==> (#[trigger] entries@[k]).0@ == self.entries@[k].0@
                        && entries@[k].1@ == self.entries@[k].1@,
            decreases self.entries.len() - i,
        {
            let name = self.entries[i].0.clone();
            let text = self.entries[i].1.clone();
            entries.push((name, text));
            i += 1;
        }
        proof {
            let a = entries@;
            let b = self.entries@;
            assert forall|n: Seq<char>| names(a, n) == names(b, n) by {
                if names(a, n) {
                    assert(b[place_of(a, n)].0@ == n);
                }
                if names(b, n) {
                    assert(a[place_of(b, n)].0@ == n);
                }
            }
            assert forall|n: Seq<char>| names(a, n) implies as_map(a)[n] == as_map(b)[n] by {
                let k = place_of(a, n);
                let kb = place_of(b, n);
                assert(b[k].0@ == n);
                assert(a[k].0@ == a[kb].0@);
            }
            assert(as_map(a) =~= as_map(b));
        }
        Captures { entries }
    }
}

impl Captures {
    #[verifier::type_invariant]
    spec fn well_formed(&self) -> bool {
        distinct_names(self.entries@)
    }

    /// How many names the map holds.
    pub closed spec fn count(&self) -> nat {
        self.entries@.len()
    }

    /// The name at place `i`, in the order of insertion.
    pub closed spec fn name_at(&self, i: int) -> Seq<char> {
        self.entries@[i].0@
    }

    /// The names that the map holds are those at its places.
    pub proof fn lemma_names_at_places(&self)
        ensures
            forall|n: Seq<char>|
                self@.contains_key(n) <==> exists|i: int|
                    0 <= i < self.count() && #[trigger] self.name_at(i) == n,
    {
        assert forall|n: Seq<char>| self@.contains_key(n) <==> exists|i: int|
            0 <= i < self.count() && #[trigger] self.name_at(i) == n by {
            if self@.contains_key(n) {
                let i = place_of(self.entries@, n);
                assert(self.name_at(i) == n);
            }
            if exists|i: int| 0 <= i < self.count() && #[trigger] self.name_at(i) == n {
                let i = choose|i: int| 0 <= i < self.count() && #[trigger] self.name_at(i) == n;
                assert(self.entries@[i].0@ == n);
                assert(names(self.entries@, n));
            }
        }
    }

    /// The bytes that the names and texts of the map take as UTF-8.
    pub closed spec fn byte_len(&self) -> nat {
        bytes_of(self.entries@)
    }

    /// The bytes that the names and texts of the map take as UTF-8, as far
    /// as they can be counted.
    pub fn total_len(&self) -> (n: u64)
        ensures
            n == if self.byte_len() <= u64::MAX {
                self.byte_len()
            } else {
                u64::MAX as nat
            },
    {
        let mut n: u64 = 0;
        let mut i: usize = 0;
        assert(self.entries@.take(0) == Seq::<(String, String)>::empty());
        while i < self.entries.len()
            invariant
                i <= self.entries.len(),
                n == if bytes_of(self.entries@.take(i as int)) <= u64::MAX {
                    bytes_of(self.entries@.take(i as int))
                } else {
                    u64::MAX as nat
                },
            decreases self.entries.len() - i,
        {
            proof {
                assert(self.entries@.take(i + 1).drop_last() == self.entries@.take(i as int));
                assert(self.entries@.take(i + 1).last() == self.entries@[i as int]);
            }
            let a = self.entries[i].0.as_str().as_bytes().len() as u64;
            let b = self.entries[i].1.as_str().as_bytes().len() as u64;
            n = n.saturating_add(a).saturating_add(b);
            i += 1;
        }
        assert(self.entries@.take(self.entries.len() as int) == self.entries@);
        n
    }

    /// The empty map: it holds no name, and so its names and texts take
    /// no bytes.
    pub fn new() -> (r: Self)
        ensures
            r@ == Map::<Seq<char>, Seq<char>>::empty(),
            r.count() == 0,
            r.byte_len() == 0,
    {
        let r = Captures { entries: Vec::new() };
        assert(r@ =~= Map::<Seq<char>, Seq<char>>::empty());
        r
    }

    /// How many names the map holds.
    pub fn len(&self) -> (n: usize)
        ensures
            n == self.count(),
            n == 0 <==> self@ == Map::<Seq<char>, Seq<char>>::empty(),
    {
        proof {
            if self.entries@.len() > 0 {
                assert(names(self.entries@, self.entries@[0].0@));
                assert(self@.dom().contains(self.entries@[0].0@));
            } else {
                assert(self@ =~= Map::<Seq<char>, Seq<char>>::empty());
            }
        }
        self.entries.len()
    }

    /// Whether the map holds no name.
    pub fn is_empty(&self) -> (r: bool)
        ensures
            r <==> self@ == Map::<Seq<char>, Seq<char>>::empty(),
    {
        self.len() == 0
    }

    fn find(&self, name: &str) -> (r: Option<usize>)
        ensures
            match r {
                Some(i) => i < self.entries@.len() && self.entries@[i as int].0@ == name@,
                None => !names(self.entries@, name@),
            },
    {
        let mut i: usize = 0;
        while i < self.entries.len()
            invariant
                i <= self.entries.len(),
                forall|k: int| 0 <= k < i ==> (#[trigger] self.entries@[k]).0@ != name@,
            decreases self.entries.len() - i,
        {
            if str_equal(self.entries[i].0.as_str(), name) {
                return Some(i);
            }
            i += 1;
        }
        None
    }

    /// The text that `name` stands for.
    pub fn get(&self, name: &str) -> (r: Option<&String>)
        ensures
            match r {
                Some(text) => self@.contains_key(name@) && self@[name@] == text@,
                None => !self@.contains_key(name@),
            },
    {
        proof {
            use_type_invariant(self);
        }
        match self.find(name) {
            Some(i) => {
                assert(names(self.entries@, name@));
                Some(&self.entries[i].1)
            },
            None => None,
        }
    }

    /// Whether the map holds `name`.
    pub fn contains_key(&self, name: &str) -> (r: bool)
        ensures
            r == self@.contains_key(name@),
    {
        self.get(name).is_some()
    }

    /// Lets `name` stand for `text`, and returns what it stood for before.
    pub fn insert(&mut self, name: String, text: String) -> (r: Option<String>)
        ensures
            final(self)@ == old(self)@.insert(name@, text@),
            match r {
                Some(before) => old(self)@.contains_key(name@) && old(self)@[name@] == before@,
                None => !old(self)@.contains_key(name@),
            },
    {
        proof {
            use_type_invariant(&*self);
        }
        let ghost before = self.entries@;
        match self.find(name.as_str()) {
            Some(i) => {
                assert(names(before, name@));
                let mut entries: Vec<(String, String)> = Vec::new();
                std::mem::swap(&mut entries, &mut self.entries);
                let ghost name_view = name@;
                let ghost text_view = text@;
                let last = entries.len() - 1;
                entries.push((name, text));
                let previous = entries.swap_remove(i);
                proof {
                    let after = entries@;
                    assert(after.len() == before.len());
                    assert(after[i as int].0@ == name_view && after[i as int].1@ == text_view);
                    assert(forall|k: int|
                        0 <= k < after.len() && k != i ==> after[k] == before[k]);
                    assert(forall|k: int|
                        0 <= k < after.len() ==> (#[trigger] after[k]).0@ == before[k].0@);
                    assert(distinct_names(after));
                    assert forall|n: Seq<char>| names(after, n) == names(before, n) by {
                        if names(after, n) {
                            let k = place_of(after, n);
                            assert(before[k].0@ == n);
                        }
                        if names(before, n) {
                            let k = place_of(before, n);
                            assert(after[k].0@ == n);
                        }
                    }
                    assert forall|n: Seq<char>| names(after, n) implies as_map(after)[n] == as_map(
                        before,
                    ).insert(name_view, text_view)[n] by {
                        let k = place_of(after, n);
                        let kb = place_of(before, n);
                        assert(after[k].0@ == before[k].0@);
                    }
                    assert(as_map(after) =~= as_map(before).insert(name_view, text_view));
                }
                self.entries = entries;
                Some(previous.1)
            },
            None => {
                let ghost name_view = name@;
                let ghost text_view = text@;
                let mut entries: Vec<(String, String)> = Vec::new();
                std::mem::swap(&mut entries, &mut self.entries);
                entries.push((name, text));
                proof {
                    let after = entries@;
                    assert(after == before.push(after.last()));
                    assert(distinct_names(after)) by {
                        assert forall|a: int, b: int|
                            0 <= a < after.len() && 0 <= b < after.len() && (
                            #[trigger] after[a]).0@ == (#[trigger] after[b]).0@ implies a == b by {
                            if a < before.len() && b < before.len() {
                                assert(before[a].0@ == before[b].0@);
                            } else if a < before.len() {
                                assert(before[a].0@ == name_view);
                            } else if b < before.len() {
                                assert(before[b].0@ == name_view);
                            }
                        }
                    }
                    assert forall|n: Seq<char>| names(after, n) == (names(before, n) || n
                        == name_view) by {
                        if names(after, n) {
                            let k = place_of(after, n);
                            if k < before.len() {
                                assert(before[k].0@ == n);
                            }
                        }
                        if names(before, n) {
                            let k = place_of(before, n);
                            assert(after[k].0@ == n);
                        }
                        if n == name_view {
                            assert(after[before.len() as int].0@ == n);
                        }
                    }
                    assert forall|n: Seq<char>| names(after, n) implies as_map(after)[n] == as_map(
                        before,
                    ).insert(name_view, text_view)[n] by {
                        let k = place_of(after, n);
                        if n != name_view {
                            let kb = place_of(before, n);
                            assert(after[kb].0@ == n);
                        } else {
                            assert(after[before.len() as int].0@ == n);
                        }
                    }
                    assert(as_map(after) =~= as_map(before).insert(name_view, text_view));
                }
                self.entries = entries;
                None
            },
        }
    }

    /// The name and the text at place `i`, in the order of insertion.
    pub fn entry(&self, i: usize) -> (r: (&String, &String))
        requires
            i < self.count(),
        ensures
            r.0@ == self.name_at(i as int),
            self@.contains_key(r.0@),
            self@[r.0@] == r.1@,
    {
        proof {
            use_type_invariant(self);
            assert(names(self.entries@, self.entries@[i as int].0@));
        }
        (&self.entries[i].0, &self.entries[i].1)
    }
}

/// Whether two strings hold the same characters.
pub fn str_equal(a: &str, b: &str) -> (r: bool)
    ensures
        r == (a@ == b@),
{
    let x = crate::chars::chars_of(a);
    let y = crate::chars::chars_of(b);
    if x.len() != y.len() {
        return false;
    }
    let mut i: usize = 0;
    while i < x.len()
        invariant
            i <= x.len(),
            x.len() == y.len(),
            x@ == a@,
            y@ == b@,
            x@.take(i as int) == y@.take(i as int),
        decreases x.len() - i,
    {
        if x[i] != y[i] {
            return false;
        }
        assert(x@.take(i + 1) == x@.take(i as int).push(x@[i as int]));
        assert(y@.take(i + 1) == y@.take(i as int).push(y@[i as int]));
        i += 1;
    }
    assert(x@.take(x.len() as int) == x@);
    assert(y@.take(y.len() as int) == y@);
    true
}

} // verus!
