//! A store of units.
use crate::collections;
use crate::collections::VecMap;
use crate::crypto::Hasher;
use crate::data::Data;
use crate::nodes::{NodeIndex, Round};
use crate::units;
use crate::units::{SignedUnit, UnitCoord};
use vstd::prelude::*;

verus! {

/// Something that can be kept in a store of units.
pub trait StoredUnit: DeepView + Sized {
    type Hash: Data;

    spec fn hash_of(v: Self::V) -> <Self::Hash as DeepView>::V;

    spec fn coord_of(v: Self::V) -> UnitCoord;

    fn unit_hash(&self) -> (hash: Self::Hash)
        ensures
            hash.deep_view() == Self::hash_of(self.deep_view()),
    ;

    fn unit_coord(&self) -> (coord: UnitCoord)
        ensures
            coord == Self::coord_of(self.deep_view()),
    ;

    fn duplicate(&self) -> (other: Self)
        ensures
            other.deep_view() == self.deep_view(),
    ;
}

impl<H: Hasher, D: Data, S: Data> StoredUnit for SignedUnit<H, D, S> {
    type Hash = H::Hash;

    open spec fn hash_of(v: Self::V) -> <H::Hash as DeepView>::V {
        units::unit_hash::<H, D>(v.signable)
    }

    open spec fn coord_of(v: Self::V) -> UnitCoord {
        v.signable.coord()
    }

    fn unit_hash(&self) -> (hash: H::Hash) {
        self.as_signable().hash()
    }

    fn unit_coord(&self) -> (coord: UnitCoord) {
        self.as_signable().coord()
    }

    fn duplicate(&self) -> (other: Self) {
        self.copy()
    }
}

/// The model of a store: the units by their hashes and, for each coordinate, the hash of the unit
/// that was there first.
#[verifier::ext_equal]
#[verifier::reject_recursive_types(V)]
pub struct StoreView<V, U> {
    pub by_hash: Map<V, U>,
    pub canonical: Map<UnitCoord, V>,
}

impl<V, U> StoreView<V, U> {
    pub open spec fn fresh() -> Self {
        StoreView { by_hash: Map::empty(), canonical: Map::empty() }
    }

    pub open spec fn with_unit(self, hash: V, coord: UnitCoord, unit: U) -> Self {
        StoreView {
            by_hash: self.by_hash.insert(hash, unit),
            canonical: if self.canonical.contains_key(coord) {
                self.canonical
            } else {
                self.canonical.insert(coord, hash)
            },
        }
    }

    /// The unit at the given coordinates is gone.
    pub open spec fn without_unit(self, hash: V, coord: UnitCoord) -> Self {
        StoreView {
            by_hash: self.by_hash.remove(hash),
            canonical: if self.canonical.contains_key(coord) && self.canonical[coord] == hash {
                self.canonical.remove(coord)
            } else {
                self.canonical
            },
        }
    }

    /// The unit that was first at some coordinate.
    pub open spec fn canonical_unit(self, coord: UnitCoord) -> Option<U> {
        if self.canonical.contains_key(coord) && self.by_hash.contains_key(self.canonical[coord]) {
            Some(self.by_hash[self.canonical[coord]])
        } else {
            None
        }
    }

    /// The canonical units of a creator in the first rounds, in the order of the rounds.
    pub open spec fn canonical_before(self, creator: NodeIndex, rounds: int) -> Seq<U>
        decreases rounds,
    {
        if rounds <= 0 {
            seq![]
        } else {
            let before = self.canonical_before(creator, rounds - 1);
            match self.canonical_unit(UnitCoord { round: (rounds - 1) as Round, creator }) {
                Some(unit) => before.push(unit),
                None => before,
            }
        }
    }

    /// The canonical units of a creator, in the order of the rounds.
    pub open spec fn canonical_units(self, creator: NodeIndex) -> Seq<U> {
        self.canonical_before(creator, 0x1_0000)
    }

    /// Whether this is the latest round of a canonical unit; zero if there are none.
    pub open spec fn is_top_round(self, round: Round) -> bool {
        &&& forall|coord: UnitCoord| #[trigger]
            self.canonical.contains_key(coord) ==> coord.round <= round
        &&& round == 0 || exists|coord: UnitCoord| #[trigger]
            self.canonical.contains_key(coord) && coord.round == round
    }
}

proof fn lemma_no_later_units<V, U>(
    store: StoreView<V, U>,
    creator: NodeIndex,
    rounds: int,
    more: int,
)
    requires
        0 <= rounds <= more <= 0x1_0000,
        forall|coord: UnitCoord| #[trigger]
            store.canonical.contains_key(coord) && coord.creator == creator ==> coord.round
                < rounds,
    ensures
        store.canonical_before(creator, more) == store.canonical_before(creator, rounds),
    decreases more - rounds,
{
    if rounds < more {
        lemma_no_later_units(store, creator, rounds, more - 1);
        let coord = UnitCoord { round: (more - 1) as Round, creator };
        assert(store.canonical_unit(coord) is None) by {
            if store.canonical.contains_key(coord) {
                assert(coord.round < rounds);
            }
        }
    }
}

/// Keeps units by their hashes and coordinates.
pub struct UnitStore<U: StoredUnit> {
    by_hash: VecMap<U::Hash, U>,
    canonical: VecMap<UnitCoord, U::Hash>,
}

impl<U: StoredUnit> DeepView for UnitStore<U> {
    type V = StoreView<<U::Hash as DeepView>::V, U::V>;

    closed spec fn deep_view(&self) -> StoreView<<U::Hash as DeepView>::V, U::V> {
        StoreView { by_hash: self.by_hash.deep_view(), canonical: self.canonical.deep_view() }
    }
}

impl<U: StoredUnit> UnitStore<U> {
    pub fn new() -> (store: Self)
        ensures
            store.deep_view() == StoreView::<<U::Hash as DeepView>::V, U::V>::fresh(),
    {
        UnitStore { by_hash: VecMap::new(), canonical: VecMap::new() }
    }

    /// Adds a unit; it is canonical if it is the first one at its coordinates.
    pub fn insert(&mut self, unit: U)
        ensures
            final(self).deep_view() == old(self).deep_view().with_unit(
                U::hash_of(unit.deep_view()),
                U::coord_of(unit.deep_view()),
                unit.deep_view(),
            ),
    {
        let hash: U::Hash = unit.unit_hash();
        let coord: UnitCoord = unit.unit_coord();
        if !self.canonical.contains_key(&coord) {
            self.canonical.insert(coord, hash.copy());
        }
        self.by_hash.insert(hash, unit);
    }

    /// Removes a unit.
    pub fn remove(&mut self, hash: &U::Hash)
        ensures
            final(self).deep_view() == (if old(self).deep_view().by_hash.contains_key(
                hash.deep_view(),
            ) {
                old(self).deep_view().without_unit(
                    hash.deep_view(),
                    U::coord_of(old(self).deep_view().by_hash[hash.deep_view()]),
                )
            } else {
                old(self).deep_view()
            }),
    {
        let ghost before = self.deep_view();
        match self.by_hash.remove(hash) {
            Some(unit) => {
                let coord: UnitCoord = unit.unit_coord();
                let canonical: bool = match self.canonical.get(&coord) {
                    Some(known) => known.equals(hash),
                    None => false,
                };
                if canonical {
                    let _ = self.canonical.remove(&coord);
                }
            },
            None => {
                proof {
                    assert(self.deep_view() =~= before);
                }
            },
        }
    }

    /// The unit with this hash.
    pub fn unit(&self, hash: &U::Hash) -> (unit: Option<&U>)
        ensures
            unit.deep_view() == (if self.deep_view().by_hash.contains_key(hash.deep_view()) {
                Some(self.deep_view().by_hash[hash.deep_view()])
            } else {
                None
            }),
    {
        self.by_hash.get(hash)
    }

    /// The unit that was first at these coordinates.
    pub fn canonical_unit(&self, coord: UnitCoord) -> (unit: Option<&U>)
        ensures
            unit.deep_view() == self.deep_view().canonical_unit(coord),
    {
        match self.canonical.get(&coord) {
            Some(hash) => self.by_hash.get(hash),
            None => None,
        }
    }

    /// Copies of the canonical units of a creator, in the order of the rounds.
    pub fn canonical_units(&self, creator: NodeIndex) -> (units: Vec<U>)
        ensures
            units.deep_view() == self.deep_view().canonical_units(creator),
    {
        let ghost store = self.deep_view();
        let rounds: u32 = self.rounds_of(creator);
        let mut units: Vec<U> = Vec::new();
        proof {
            assert(units.deep_view() =~= store.canonical_before(creator, 0));
        }
        for i in 0..rounds
            invariant
                rounds <= 0x1_0000,
                store == self.deep_view(),
                units.deep_view() == store.canonical_before(creator, i as int),
        {
            let ghost before = units.deep_view();
            let coord: UnitCoord = UnitCoord::new(i as Round, creator);
            if let Some(unit) = self.canonical_unit(coord) {
                units.push(unit.duplicate());
                proof {
                    assert(units.deep_view() =~= before.push(unit.deep_view()));
                }
            }
        }
        proof {
            lemma_no_later_units(store, creator, rounds as int, 0x1_0000);
        }
        units
    }

    /// The number of rounds up to the last one with a canonical unit of the creator.
    fn rounds_of(&self, creator: NodeIndex) -> (rounds: u32)
        ensures
            rounds <= 0x1_0000,
            forall|coord: UnitCoord| #[trigger]
                self.deep_view().canonical.contains_key(coord) && coord.creator == creator
                    ==> coord.round < rounds,
    {
        let n: usize = self.canonical.len();
        let ghost listing = self.canonical.listing();
        let mut rounds: u32 = 0;
        self.canonical.check_listing();
        for i in 0..n
            invariant
                n == listing.len(),
                listing == self.canonical.listing(),
                rounds <= 0x1_0000,
                forall|j: int|
                    0 <= j < i && (#[trigger] listing[j]).0.creator == creator
                        ==> listing[j].0.round < rounds,
        {
            let (coord, _) = self.canonical.entry(i);
            if coord.creator == creator && coord.round as u32 >= rounds {
                rounds = coord.round as u32 + 1;
            }
        }
        proof {
            collections::lemma_as_map(listing);
        }
        rounds
    }

    /// The latest round of a canonical unit; zero if there are none.
    pub fn top_round(&self) -> (round: Round)
        ensures
            self.deep_view().is_top_round(round),
    {
        let n: usize = self.canonical.len();
        let ghost listing = self.canonical.listing();
        let mut round: Round = 0;
        self.canonical.check_listing();
        proof {
            collections::lemma_as_map(listing);
        }
        for i in 0..n
            invariant
                n == listing.len(),
                listing == self.canonical.listing(),
                forall|j: int| 0 <= j < i ==> (#[trigger] listing[j]).0.round <= round,
                round == 0 || exists|j: int|
                    0 <= j < i && (#[trigger] listing[j]).0.round == round,
        {
            let (coord, _) = self.canonical.entry(i);
            let ghost before = round;
            if coord.round > round {
                round = coord.round;
            }
            proof {
                assert(listing[i as int].0 == coord);
                if round == before && round != 0 {
                    let j = choose|j: int| 0 <= j < i && (#[trigger] listing[j]).0.round == before;
                    assert(listing[j].0.round == round);
                } else if round != 0 {
                    assert(listing[i as int].0.round == round);
                }
            }
        }
        proof {
            if round != 0 {
                let j = choose|j: int| 0 <= j < n && (#[trigger] listing[j]).0.round == round;
                assert(self.deep_view().canonical.contains_key(listing[j].0));
            }
        }
        round
    }

    /// How many units there are.
    pub fn size(&self) -> (n: usize)
        ensures
            self.deep_view().by_hash.dom().finite(),
            n == self.deep_view().by_hash.dom().len(),
    {
        self.by_hash.check_listing();
        proof {
            collections::lemma_dom_len(self.by_hash.listing());
        }
        self.by_hash.len()
    }
}

/// A unit that was inserted is found under its hash.
pub proof fn law_inserted_unit_found<V, U>(
    store: StoreView<V, U>,
    hash: V,
    coord: UnitCoord,
    unit: U,
)
    ensures
        store.with_unit(hash, coord, unit).by_hash.contains_key(hash),
        store.with_unit(hash, coord, unit).by_hash[hash] == unit,
{
}

/// The canonical unit at some coordinates stays, whatever other units are inserted.
pub proof fn law_canonical_stays<V, U>(
    store: StoreView<V, U>,
    coord: UnitCoord,
    hash: V,
    other_coord: UnitCoord,
    unit: U,
)
    requires
        store.canonical_unit(coord) is Some,
        hash != store.canonical[coord],
    ensures
        store.with_unit(hash, other_coord, unit).canonical_unit(coord) == store.canonical_unit(
            coord,
        ),
{
}

/// The coordinates of a creator in all the rounds.
pub open spec fn all_coords(creator: NodeIndex, rounds: nat) -> Seq<UnitCoord> {
    Seq::new(rounds, |round: int| UnitCoord { round: round as Round, creator })
}

proof fn lemma_canonical_before<V, U>(store: StoreView<V, U>, creator: NodeIndex, rounds: nat)
    requires
        rounds <= 0x1_0000,
    ensures
        store.canonical_before(creator, rounds as int) == all_coords(creator, rounds).filter(
            |coord: UnitCoord| store.canonical_unit(coord) is Some,
        ).map_values(|coord: UnitCoord| store.canonical_unit(coord)->0),
    decreases rounds,
{
    reveal(Seq::filter);
    let there = |coord: UnitCoord| store.canonical_unit(coord) is Some;
    let found = |coord: UnitCoord| store.canonical_unit(coord)->0;
    let coords = all_coords(creator, rounds);
    if rounds > 0 {
        let less = (rounds - 1) as nat;
        lemma_canonical_before(store, creator, less);
        assert(coords.drop_last() =~= all_coords(creator, less));
        let before = coords.drop_last().filter(there);
        if there(coords.last()) {
            assert(before.push(coords.last()).map_values(found) =~= before.map_values(found).push(
                found(coords.last()),
            ));
        }
    } else {
        assert(coords.filter(there).map_values(found) =~= seq![]);
    }
}

/// The canonical units of a creator are, round by round, all those that are there.
pub proof fn law_canonical_units_by_round<V, U>(store: StoreView<V, U>, creator: NodeIndex)
    ensures
        store.canonical_units(creator) == all_coords(creator, 0x1_0000).filter(
            |coord: UnitCoord| store.canonical_unit(coord) is Some,
        ).map_values(|coord: UnitCoord| store.canonical_unit(coord)->0),
{
    lemma_canonical_before(store, creator, 0x1_0000);
}

/// The first unit at some coordinates is the canonical one, whatever comes later; inserting a unit
/// changes nothing under other hashes and at other coordinates.
pub proof fn law_first_is_canonical<V, U>(
    store: StoreView<V, U>,
    hash: V,
    coord: UnitCoord,
    unit: U,
)
    ensures
        ({
            let after = store.with_unit(hash, coord, unit);
            &&& !store.canonical.contains_key(coord) ==> after.canonical_unit(coord) == Some(unit)
            &&& store.canonical.contains_key(coord) ==> after.canonical.contains_key(coord)
                && after.canonical[coord] == store.canonical[coord]
            &&& forall|other: V|
                other != hash ==> (#[trigger] after.by_hash.contains_key(other)
                    == store.by_hash.contains_key(other)) && (store.by_hash.contains_key(other)
                    ==> after.by_hash[other] == store.by_hash[other])
            &&& forall|other: UnitCoord|
                other != coord ==> (#[trigger] after.canonical.contains_key(other)
                    == store.canonical.contains_key(other)) && (store.canonical.contains_key(other)
                    ==> after.canonical[other] == store.canonical[other])
        }),
{
}

/// A unit that is taken out is gone, and no longer canonical if it was; all else stays. Taking out a
/// unit that was just put in leaves the store as it was.
pub proof fn law_taken_out_is_gone<V, U>(
    store: StoreView<V, U>,
    hash: V,
    coord: UnitCoord,
    unit: U,
)
    ensures
        ({
            let after = store.without_unit(hash, coord);
            &&& !after.by_hash.contains_key(hash)
            &&& !(after.canonical.contains_key(coord) && after.canonical[coord] == hash)
            &&& forall|other: V|
                other != hash ==> (#[trigger] after.by_hash.contains_key(other)
                    == store.by_hash.contains_key(other)) && (store.by_hash.contains_key(other)
                    ==> after.by_hash[other] == store.by_hash[other])
            &&& forall|other: UnitCoord|
                other != coord ==> (#[trigger] after.canonical.contains_key(other)
                    == store.canonical.contains_key(other)) && (store.canonical.contains_key(other)
                    ==> after.canonical[other] == store.canonical[other])
        }),
        !store.by_hash.contains_key(hash) && !(store.canonical.contains_key(coord)
            && store.canonical[coord] == hash) ==> store.with_unit(hash, coord, unit).without_unit(
            hash,
            coord,
        ) == store,
{
    let both = store.with_unit(hash, coord, unit).without_unit(hash, coord);
    if !store.by_hash.contains_key(hash) && !(store.canonical.contains_key(coord)
        && store.canonical[coord] == hash) {
        assert(both.by_hash =~= store.by_hash);
        assert(both.canonical =~= store.canonical);
    }
}

/// There is one top round: no canonical unit is of a later one, and unless it is zero some unit is
/// of it.
pub proof fn law_one_top_round<V, U>(store: StoreView<V, U>, one: Round, other: Round)
    requires
        store.is_top_round(one),
        store.is_top_round(other),
    ensures
        one == other,
        forall|coord: UnitCoord| #[trigger]
            store.canonical.contains_key(coord) ==> coord.round <= one,
        (forall|coord: UnitCoord| #[trigger] store.canonical.contains_key(coord) ==> coord.round
            == 0) ==> one == 0,
{
}

} // verus!
