//! The places of a module whose symbol was found after the module was loaded.
use indexmap::IndexMap;
use vstd::prelude::*;
use crate::linux::symbol::ModuleSymbol;
use crate::outside::{
    entry_has_key, has_entry, index_entries, index_get, index_insert, index_new,
};

verus! {

/// Where a place for the symbol `name` stands, from the `k`th on.
pub open spec fn place_for(places: Seq<ModuleSymbol>, name: Seq<char>, k: int) -> Option<int>
    decreases places.len() - k,
{
    if k < 0 || k >= places.len() {
        None
    } else if places[k]@.symbol matches Some((n, _)) && n == name {
        Some(k)
    } else {
        place_for(places, name, k + 1)
    }
}

/// The remembered places after one more: a place for the same symbol makes way for it,
/// and a place without a symbol is not remembered.
pub open spec fn put_place(places: Seq<ModuleSymbol>, place: ModuleSymbol) -> Seq<ModuleSymbol> {
    match place@.symbol {
        Some((name, _)) => match place_for(places, name, 0) {
            Some(i) => places.update(i, place),
            None => places.push(place),
        },
        None => places,
    }
}

/// The remembered places after the first `n` of `places` joined those from before.
pub open spec fn recorded(before: Seq<ModuleSymbol>, places: Seq<ModuleSymbol>, n: int) -> Seq<
    ModuleSymbol,
>
    decreases n,
{
    if n <= 0 {
        before
    } else {
        put_place(recorded(before, places, n - 1), places[n - 1])
    }
}

/// Places by the names of their symbols, in the order in which the names came.
pub struct ResolvedPlaces {
    /// Positions in `places`.
    index: IndexMap<String, usize>,
    places: Vec<ModuleSymbol>,
}

impl View for ResolvedPlaces {
    type V = Seq<ModuleSymbol>;

    closed spec fn view(&self) -> Seq<ModuleSymbol> {
        self.places@
    }
}

/// The entry at position `i` names the symbol of the place there.
spec fn names(entry: (Seq<char>, usize), place: ModuleSymbol, i: int) -> bool {
    entry.1 == i && (place@.symbol matches Some((n, _)) && n == entry.0)
}

/// The entries name the symbols of the places, one for one.
spec fn in_step(entries: Seq<(Seq<char>, usize)>, places: Seq<ModuleSymbol>) -> bool {
    &&& entries.len() == places.len()
    &&& forall|i: int| 0 <= i < entries.len() ==> #[trigger] names(entries[i], places[i], i)
}

/// Positions by name are the same in the entries and in the places.
proof fn lemma_place_for(
    entries: Seq<(Seq<char>, usize)>,
    places: Seq<ModuleSymbol>,
    name: Seq<char>,
    k: int,
)
    requires
        in_step(entries, places),
        0 <= k <= places.len(),
    ensures
        match place_for(places, name, k) {
            Some(i) => k <= i && entry_has_key(entries, name, i),
            None => forall|i: int| k <= i ==> !(#[trigger] entry_has_key(entries, name, i)),
        },
    decreases places.len() - k,
{
    if k < places.len() {
        assert(names(entries[k], places[k], k));
        lemma_place_for(entries, places, name, k + 1);
    }
}

impl ResolvedPlaces {
    #[verifier::type_invariant]
    spec fn wf(self) -> bool {
        in_step(index_entries(self.index), self.places@)
    }

    pub fn new() -> (r: ResolvedPlaces)
        ensures
            r@ == Seq::<ModuleSymbol>::empty(),
    {
        ResolvedPlaces { index: index_new(), places: Vec::new() }
    }

    pub fn len(&self) -> (n: usize)
        ensures
            n == self@.len(),
    {
        self.places.len()
    }

    /// The place at a position.
    pub fn get(&self, i: usize) -> (r: &ModuleSymbol)
        requires
            i < self@.len(),
        ensures
            *r == self@[i as int],
    {
        &self.places[i]
    }

    /// Remember places, in their order.
    pub fn put_all(self, places: Vec<ModuleSymbol>) -> (r: ResolvedPlaces)
        ensures
            r@ == recorded(self@, places@, places@.len() as int),
    {
        let ghost all = places@;
        let ghost before = self@;
        let n: usize = places.len();
        let mut places = places;
        let mut done = self;
        let mut i: usize = 0;
        while i < n
            invariant
                i <= n,
                n == all.len(),
                places@ == all.skip(i as int),
                done@ == recorded(before, all, i as int),
            decreases n - i,
        {
            let place = places.remove(0);
            assert(place == all[i as int]);
            assert(places@ =~= all.skip(i + 1));
            done = done.put(place);
            i = i + 1;
        }
        done
    }

    /// Remember one more place.
    pub fn put(self, place: ModuleSymbol) -> (r: ResolvedPlaces)
        ensures
            r@ == put_place(self@, place),
    {
        proof {
            use_type_invariant(&self);
        }
        let ResolvedPlaces { mut index, mut places } = self;
        let ghost before = index_entries(index);
        let ghost all = places@;
        let name = match &place.symbol {
            Some(e) => e.name.as_str().to_owned(),
            None => {
                return ResolvedPlaces { index, places };
            },
        };
        proof {
            lemma_place_for(before, all, name@, 0);
        }
        match index_get(&index, name.as_str()) {
            Some(i) => {
                assert(place_for(all, name@, 0) == Some(i as int)) by {
                    match place_for(all, name@, 0) {
                        Some(k) => {
                            assert(entry_has_key(before, name@, k));
                            assert(names(before[k], all[k], k));
                        },
                        None => {
                            let k = choose|k: int| entry_has_key(before, name@, k);
                            assert(entry_has_key(before, name@, k));
                        },
                    }
                }
                places.set(i, place);
                assert forall|k: int| 0 <= k < before.len() implies #[trigger] names(
                    before[k],
                    places@[k],
                    k,
                ) by {
                    assert(names(before[k], all[k], k));
                }
            },
            None => {
                let at: usize = places.len();
                let ghost key = name@;
                let _ = index_insert(&mut index, name, at);
                places.push(place);
                assert(place_for(all, key, 0) is None);
                assert(!has_entry(before, key));
                assert(index_entries(index) == before.push((key, at)));
                assert forall|k: int| 0 <= k <= before.len() implies #[trigger] names(
                    index_entries(index)[k],
                    places@[k],
                    k,
                ) by {
                    if k < before.len() {
                        assert(names(before[k], all[k], k));
                    }
                }
            },
        }
        ResolvedPlaces { index, places }
    }
}

/// A place that is remembered is what its symbol's name leads to from then on. Places for
/// other symbols stay, in their order, and a place without a symbol changes nothing.
pub proof fn law_place_is_remembered(
    places: Seq<ModuleSymbol>,
    place: ModuleSymbol,
    other: Seq<char>,
)
    ensures
        place@.symbol is None ==> put_place(places, place) == places,
        place@.symbol matches Some((name, _)) ==> {
            let after = put_place(places, place);
            &&& place_for(after, name, 0) matches Some(i) && 0 <= i < after.len() && after[i] == place
            &&& other != name ==> place_for(after, other, 0) == place_for(places, other, 0)
            &&& forall|i: int|
                0 <= i < places.len() && !(places[i]@.symbol matches Some((n, _)) && n == name)
                    ==> #[trigger] after[i] == places[i]
            &&& places.len() <= after.len() <= places.len() + 1
        },
{
    if let Some((name, _)) = place@.symbol {
        lemma_place_found(places, name, 0);
        let after = put_place(places, place);
        match place_for(places, name, 0) {
            Some(i) => {
                lemma_place_at(after, name, i, 0);
            },
            None => {
                lemma_place_at(after, name, places.len() as int, 0);
            },
        }
        if other != name {
            lemma_same_elsewhere(places, after, name, other, 0);
        }
    }
}

/// A found place is for the symbol, and no place before it is.
proof fn lemma_place_found(places: Seq<ModuleSymbol>, name: Seq<char>, k: int)
    requires
        0 <= k <= places.len(),
    ensures
        match place_for(places, name, k) {
            Some(i) => {
                &&& k <= i < places.len()
                &&& places[i]@.symbol is Some
                &&& (places[i]@.symbol->0).0 == name
                &&& forall|j: int|
                    k <= j < i ==> !((#[trigger] places[j])@.symbol is Some && (
                    places[j]@.symbol->0).0 == name)
            },
            None => forall|j: int|
                k <= j < places.len() ==> !((#[trigger] places[j])@.symbol is Some && (
                places[j]@.symbol->0).0 == name),
        },
    decreases places.len() - k,
{
    if k < places.len() && !(places[k]@.symbol is Some && (places[k]@.symbol->0).0 == name) {
        lemma_place_found(places, name, k + 1);
    }
}

/// The first place for a symbol is found.
proof fn lemma_place_at(places: Seq<ModuleSymbol>, name: Seq<char>, i: int, k: int)
    requires
        0 <= k <= i < places.len(),
        places[i]@.symbol is Some,
        (places[i]@.symbol->0).0 == name,
        forall|j: int|
            k <= j < i ==> !((#[trigger] places[j])@.symbol is Some && (places[j]@.symbol->0).0
                == name),
    ensures
        place_for(places, name, k) == Some(i),
    decreases i - k,
{
    if k < i {
        assert(!(places[k]@.symbol is Some && (places[k]@.symbol->0).0 == name));
        lemma_place_at(places, name, i, k + 1);
    }
}

/// Tables that differ only in places for `name` agree on every other name.
proof fn lemma_same_elsewhere(
    places: Seq<ModuleSymbol>,
    after: Seq<ModuleSymbol>,
    name: Seq<char>,
    other: Seq<char>,
    k: int,
)
    requires
        other != name,
        0 <= k <= places.len() <= after.len() <= places.len() + 1,
        forall|i: int|
            0 <= i < places.len() ==> #[trigger] after[i] == places[i] || (after[i]@.symbol is Some
                && (after[i]@.symbol->0).0 == name && places[i]@.symbol is Some && (
            places[i]@.symbol->0).0 == name),
        after.len() > places.len() ==> after.last()@.symbol is Some && (after.last()@.symbol->0).0
            == name,
    ensures
        place_for(after, other, k) == place_for(places, other, k),
    decreases places.len() - k,
{
    if k < places.len() {
        assert(after[k] == places[k] || (after[k]@.symbol is Some && (after[k]@.symbol->0).0
            == name));
        lemma_same_elsewhere(places, after, name, other, k + 1);
    } else if after.len() > places.len() {
        assert(place_for(after, other, k + 1) is None);
    }
}

/// Of several places for one symbol the last is the one that is remembered, and what was
/// remembered before stays where no new place has its symbol.
pub proof fn law_last_place_counts(
    before: Seq<ModuleSymbol>,
    places: Seq<ModuleSymbol>,
    n: int,
    i: int,
    name: Seq<char>,
)
    requires
        0 <= n <= places.len(),
        forall|j: int|
            i < j < n ==> !((#[trigger] places[j])@.symbol matches Some((s, _)) && s == name),
        0 <= i < n ==> places[i]@.symbol is Some && (places[i]@.symbol->0).0 == name,
        -1 <= i < n,
    ensures
        ({
            let after = recorded(before, places, n);
            &&& i >= 0 ==> (place_for(after, name, 0) matches Some(k) && 0 <= k < after.len()
                && after[k] == places[i])
            &&& i < 0 ==> (place_for(before, name, 0) matches Some(k) ==> place_for(after, name, 0)
                == Some(k) && after[k] == before[k])
            &&& before.len() <= after.len() <= before.len() + n
        }),
    decreases n,
{
    if n > 0 {
        let prior = recorded(before, places, n - 1);
        let place = places[n - 1];
        law_place_is_remembered(prior, place, name);
        lemma_place_found(prior, name, 0);
        if i < n - 1 {
            law_last_place_counts(before, places, n - 1, i, name);
            assert(!(places[n - 1]@.symbol matches Some((s, _)) && s == name));
        } else {
            lemma_recorded_length(before, places, n - 1);
        }
    } else {
        lemma_place_found(before, name, 0);
    }
}

proof fn lemma_recorded_length(before: Seq<ModuleSymbol>, places: Seq<ModuleSymbol>, n: int)
    requires
        0 <= n <= places.len(),
    ensures
        before.len() <= recorded(before, places, n).len() <= before.len() + n,
    decreases n,
{
    if n > 0 {
        lemma_recorded_length(before, places, n - 1);
        law_place_is_remembered(recorded(before, places, n - 1), places[n - 1], Seq::empty());
    }
}

} // verus!
