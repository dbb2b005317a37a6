//! Collecting candidates for parents and creating units out of them.
use crate::crypto::{HashOf, Hasher, Keychain, SignatureOf};
use crate::data::Data;
use crate::nodes;
use crate::nodes::{NodeCount, NodeIndex, NodeMap, Round};
use crate::units;
use crate::units::validator;
use crate::units::validator::Limits;
use crate::units::{ControlHash, PreUnit, PreUnitView, Unit, UnitCoord, UnitView};
use vstd::prelude::*;

verus! {

/// The candidates once a unit was added: the first unit of a creator stays.
pub open spec fn collected<V>(candidates: Seq<Option<V>>, unit: UnitView<V>) -> Seq<Option<V>> {
    if nodes::at(candidates, unit.creator()) is None {
        candidates.update(unit.creator().0 as int, Some(unit.hash))
    } else {
        candidates
    }
}

/// Whether the candidates are enough for a unit by this creator: more than two thirds of the
/// committee, and the own previous unit among them.
pub open spec fn enough_candidates<V>(candidates: Seq<Option<V>>, node_id: NodeIndex) -> bool {
    &&& nodes::present(candidates).len() >= nodes::threshold(candidates.len())
    &&& nodes::at(candidates, node_id) is Some
}

/// The unit with these parents, and the parents' hashes in order.
pub open spec fn unit_with_parents<H: Hasher>(
    node_id: NodeIndex,
    parents: Seq<Option<HashOf<H>>>,
    round: Round,
) -> (PreUnitView<HashOf<H>>, Seq<HashOf<H>>) {
    (
        PreUnitView {
            coord: UnitCoord { round, creator: node_id },
            control_hash: units::control_hash_of::<H>(parents),
        },
        nodes::values(parents),
    )
}

/// The first known units of each creator in one round.
pub struct UnitsCollector<H: Hasher> {
    n_candidates: NodeCount,
    candidates: NodeMap<H::Hash>,
}

impl<H: Hasher> DeepView for UnitsCollector<H> {
    type V = Seq<Option<HashOf<H>>>;

    closed spec fn deep_view(&self) -> Seq<Option<HashOf<H>>> {
        self.candidates.deep_view()
    }
}

impl<H: Hasher> UnitsCollector<H> {
    /// The number of candidates is right.
    pub closed spec fn wf(&self) -> bool {
        self.n_candidates.0 == nodes::present(self.candidates.deep_view()).len()
    }

    pub fn new(n_members: NodeCount) -> (result: Self)
        ensures
            result.wf(),
            result.deep_view() == nodes::empty::<HashOf<H>>(n_members.0 as nat),
    {
        let candidates: NodeMap<H::Hash> = NodeMap::with_size(n_members);
        proof {
            nodes::lemma_empty_present::<HashOf<H>>(n_members.0 as nat);
        }
        UnitsCollector { n_candidates: NodeCount(0), candidates }
    }

    /// Adds a candidate, unless there already is one by the same creator.
    pub fn add_unit(&mut self, unit: &Unit<H>)
        requires
            old(self).wf(),
            unit.deep_view().creator().0 < old(self).deep_view().len(),
        ensures
            final(self).wf(),
            final(self).deep_view() == collected(old(self).deep_view(), unit.deep_view()),
    {
        let pid: NodeIndex = unit.creator();
        let hash: H::Hash = unit.hash();
        if self.candidates.get(pid).is_none() {
            proof {
                self.candidates.lemma_size();
                nodes::lemma_present_update(self.candidates.deep_view(), pid.0 as int, hash.deep_view());
                nodes::lemma_present_len(
                    self.candidates.deep_view().update(pid.0 as int, Some(hash.deep_view())),
                );
            }
            self.candidates.insert(pid, hash);
            self.n_candidates = NodeCount(self.n_candidates.0 + 1);
        }
    }

    /// The candidates, if they are enough for a unit by this creator.
    pub fn can_create(&self, node_id: NodeIndex) -> (result: Option<&NodeMap<H::Hash>>)
        requires
            self.wf(),
        ensures
            result.deep_view() == (if enough_candidates(self.deep_view(), node_id) {
                Some(self.deep_view())
            } else {
                None
            }),
    {
        let threshold: NodeCount = self.candidates.size().consensus_threshold();
        if self.n_candidates.0 < threshold.0 {
            return None;
        }
        if self.candidates.get(node_id).is_none() {
            return None;
        }
        Some(&self.candidates)
    }
}

/// Makes a unit out of its parents.
pub fn create_unit<H: Hasher>(node_id: NodeIndex, parents: NodeMap<H::Hash>, round: Round) -> (result: (
    PreUnit<H>,
    Vec<H::Hash>,
))
    ensures
        (result.0.deep_view(), result.1.deep_view()) == unit_with_parents::<H>(
            node_id,
            parents.deep_view(),
            round,
        ),
{
    let control_hash: ControlHash<H> = ControlHash::new(&parents);
    let parent_hashes: Vec<H::Hash> = parents.values();
    let new_preunit: PreUnit<H> = PreUnit::new(node_id, round, control_hash);
    (new_preunit, parent_hashes)
}

/// The model of a creator: the candidates of each round that was heard of.
#[verifier::ext_equal]
pub struct CreatorView<V> {
    pub node_id: NodeIndex,
    pub n_members: NodeCount,
    pub rounds: Seq<Seq<Option<V>>>,
}

impl<V> CreatorView<V> {
    /// The candidates in a round; none if the round was not heard of.
    pub open spec fn candidates(self, round: Round) -> Seq<Option<V>> {
        if round < self.rounds.len() {
            self.rounds[round as int]
        } else {
            nodes::empty(self.n_members.0 as nat)
        }
    }

    /// The creator once a unit was added.
    pub open spec fn with_unit(self, unit: UnitView<V>) -> Self {
        let n = if unit.round() < self.rounds.len() {
            self.rounds.len()
        } else {
            unit.round() as nat + 1
        };
        CreatorView {
            rounds: Seq::new(
                n,
                |r: int|
                    if r == unit.round() {
                        collected(self.candidates(r as Round), unit)
                    } else {
                        self.candidates(r as Round)
                    },
            ),
            ..self
        }
    }

    /// The parents that a unit of a round would get, if there are enough candidates. An initial
    /// unit has no parents.
    pub open spec fn parents_for(self, round: Round) -> Option<Seq<Option<V>>> {
        if round == 0 {
            Some(nodes::empty(self.n_members.0 as nat))
        } else if round <= self.rounds.len() && enough_candidates(
            self.rounds[round - 1],
            self.node_id,
        ) {
            Some(self.rounds[round - 1])
        } else {
            None
        }
    }
}

/// Creates the units of one committee member.
pub struct Creator<H: Hasher> {
    node_id: NodeIndex,
    n_members: NodeCount,
    round_collectors: Vec<UnitsCollector<H>>,
}

impl<H: Hasher> DeepView for Creator<H> {
    type V = CreatorView<HashOf<H>>;

    closed spec fn deep_view(&self) -> CreatorView<HashOf<H>> {
        CreatorView {
            node_id: self.node_id,
            n_members: self.n_members,
            rounds: self.round_collectors.deep_view(),
        }
    }
}

impl<H: Hasher> Creator<H> {
    /// At least round zero was heard of, and every round's candidates are for the whole committee.
    pub closed spec fn wf(&self) -> bool {
        &&& 1 <= self.round_collectors@.len() <= 0x1_0000
        &&& forall|r: int|
            0 <= r < self.round_collectors@.len() ==> {
                &&& (#[trigger] self.round_collectors@[r]).wf()
                &&& self.round_collectors@[r].deep_view().len() == self.n_members.0
            }
    }

    pub fn new(node_id: NodeIndex, n_members: NodeCount) -> (result: Self)
        ensures
            result.wf(),
            result.deep_view() == (CreatorView {
                node_id,
                n_members,
                rounds: seq![nodes::empty::<HashOf<H>>(n_members.0 as nat)],
            }),
    {
        let mut round_collectors: Vec<UnitsCollector<H>> = Vec::new();
        round_collectors.push(UnitsCollector::new(n_members));
        let result = Creator { node_id, n_members, round_collectors };
        proof {
            assert(result.deep_view().rounds =~= seq![
                nodes::empty::<HashOf<H>>(n_members.0 as nat),
            ]);
        }
        result
    }

    /// The latest round that was heard of.
    pub fn current_round(&self) -> (round: Round)
        requires
            self.wf(),
        ensures
            round == self.deep_view().rounds.len() - 1,
    {
        (self.round_collectors.len() - 1) as Round
    }

    /// Makes sure that there is a collector for a round, and for all before it.
    fn initialize_collectors(&mut self, round: Round)
        requires
            old(self).wf(),
        ensures
            final(self).wf(),
            final(self).node_id == old(self).node_id,
            final(self).n_members == old(self).n_members,
            round < final(self).deep_view().rounds.len(),
            final(self).deep_view().rounds.len() == (if round < old(self).deep_view().rounds.len() {
                old(self).deep_view().rounds.len()
            } else {
                round as nat + 1
            }),
            forall|r: int|
                0 <= r < final(self).deep_view().rounds.len() ==> #[trigger] final(self).deep_view().rounds[r] == old(self).deep_view().candidates(r as Round),
    {
        let ghost start = *self;
        while self.round_collectors.len() <= round as usize
            invariant
                self.wf(),
                self.node_id == start.node_id,
                self.n_members == start.n_members,
                self.round_collectors@.len() >= start.round_collectors@.len(),
                self.round_collectors@.len() <= round + 1 || self.round_collectors@.len()
                    == start.round_collectors@.len(),
                forall|r: int|
                    0 <= r < self.round_collectors@.len() ==> #[trigger] self.deep_view().rounds[r]
                        == start.deep_view().candidates(r as Round),
            decreases round + 1 - self.round_collectors@.len(),
        {
            let ghost before = *self;
            self.round_collectors.push(UnitsCollector::new(self.n_members));
            proof {
                assert forall|r: int|
                    0 <= r < self.round_collectors@.len() implies #[trigger] self.deep_view().rounds[r]
                    == start.deep_view().candidates(r as Round) by {
                    if r < before.round_collectors@.len() {
                        assert(self.deep_view().rounds[r] == before.deep_view().rounds[r]);
                    }
                }
            }
        }
    }

    /// Returns `None` if a unit cannot be created.
    /// To create a new unit, we need to have at least floor(2*N/3) + 1 parents available in previous round.
    /// Additionally, our unit from previous round must be available.
    pub fn create_unit(&self, round: Round) -> (result: Option<(PreUnit<H>, Vec<H::Hash>)>)
        requires
            self.wf(),
        ensures
            result.deep_view() == (match self.deep_view().parents_for(round) {
                Some(parents) => Some(
                    unit_with_parents::<H>(self.deep_view().node_id, parents, round),
                ),
                None => None,
            }),
    {
        if round == 0 {
            let parents: NodeMap<H::Hash> = NodeMap::with_size(self.n_members);
            return Some(create_unit(self.node_id, parents, round));
        }
        let prev_round: usize = (round - 1) as usize;
        if prev_round >= self.round_collectors.len() {
            return None;
        }
        match self.round_collectors[prev_round].can_create(self.node_id) {
            Some(parents) => Some(create_unit(self.node_id, parents.copy(), round)),
            None => None,
        }
    }

    /// Adds a candidate for a parent.
    pub fn add_unit(&mut self, unit: &Unit<H>)
        requires
            old(self).wf(),
            unit.deep_view().creator().0 < old(self).deep_view().n_members.0,
        ensures
            final(self).wf(),
            final(self).deep_view() == old(self).deep_view().with_unit(unit.deep_view()),
    {
        let round: Round = unit.round();
        self.initialize_collectors(round);
        let ghost before = *self;
        self.round_collectors[round as usize].add_unit(unit);
        proof {
            assert(self.deep_view().rounds =~= before.deep_view().rounds.update(
                round as int,
                collected(before.deep_view().rounds[round as int], unit.deep_view()),
            ));
            assert(self.deep_view().rounds =~= old(self).deep_view().with_unit(
                unit.deep_view(),
            ).rounds);
        }
    }
}

/// A created unit has the parents it needs to be accepted by everybody: none in round zero, later
/// more than two thirds of the committee, the previous unit of its creator among them.
pub proof fn law_created_unit_accepted<H: Hasher, D: Data, K: Keychain>(
    creator: CreatorView<HashOf<H>>,
    round: Round,
    limits: Limits,
)
    requires
        creator.parents_for(round) is Some,
        creator.n_members == limits.n_members,
        limits.threshold.0 == nodes::threshold(limits.n_members.0 as nat),
        forall|r: int|
            0 <= r < creator.rounds.len() ==> (#[trigger] creator.rounds[r]).len()
                == creator.n_members.0,
    ensures
        validator::parents_verdict::<HashOf<H>, D::V, SignatureOf<K>>(
            limits,
            unit_with_parents::<H>(
                creator.node_id,
                creator.parents_for(round)->0,
                round,
            ).0,
        ) is None,
{
    let parents = creator.parents_for(round)->0;
    nodes::lemma_mask_elements(parents);
    if round == 0 {
        nodes::lemma_empty_present::<HashOf<H>>(creator.n_members.0 as nat);
    } else {
        assert(creator.rounds[round - 1].len() == creator.n_members.0);
    }
}

/// The first unit of a creator in a round stays its candidate, whatever is added later.
pub proof fn law_first_candidate_stays<V>(
    creator: CreatorView<V>,
    unit: UnitView<V>,
    round: Round,
    node_id: NodeIndex,
)
    requires
        nodes::at(creator.candidates(round), node_id) is Some,
        unit.creator().0 < creator.candidates(unit.round()).len(),
    ensures
        nodes::at(creator.with_unit(unit).candidates(round), node_id) == nodes::at(
            creator.candidates(round),
            node_id,
        ),
{
}

/// What could be created still can be when more units are known.
pub proof fn law_creation_monotone<V>(creator: CreatorView<V>, unit: UnitView<V>, round: Round)
    requires
        creator.parents_for(round) is Some,
        unit.creator().0 < creator.n_members.0,
        forall|r: int|
            0 <= r < creator.rounds.len() ==> (#[trigger] creator.rounds[r]).len()
                == creator.n_members.0,
    ensures
        creator.with_unit(unit).parents_for(round) is Some,
{
    if round > 0 {
        let before = creator.rounds[round - 1];
        assert(before.len() == creator.n_members.0);
        assert(creator.candidates((round - 1) as Round) == before);
        let i = unit.creator().0 as int;
        if unit.round() == round - 1 && before[i] is None {
            nodes::lemma_present_update(before, i, unit.hash);
        }
    }
}

/// A unit can be created exactly if it is an initial one, or if candidates of more than two thirds of
/// the committee are known in the previous round and our own is among them. An initial unit has no
/// parents; any other has all the candidates of the previous round.
pub proof fn law_created_when_enough<V>(creator: CreatorView<V>, round: Round)
    requires
        forall|r: int|
            0 <= r < creator.rounds.len() ==> (#[trigger] creator.rounds[r]).len()
                == creator.n_members.0,
    ensures
        ({
            let previous = creator.candidates((round - 1) as Round);
            let own = creator.node_id.0 as int;
            &&& creator.parents_for(round) is Some <==> {
                ||| round == 0
                ||| {
                    &&& 3 * nodes::held(previous) > 2 * creator.n_members.0
                    &&& own < creator.n_members.0
                    &&& previous[own] is Some
                }
            }
            &&& creator.parents_for(round) matches Some(parents) ==> {
                &&& parents.len() == creator.n_members.0
                &&& round == 0 ==> forall|i: int|
                    0 <= i < parents.len() ==> #[trigger] parents[i] is None
                &&& round > 0 ==> parents == previous
            }
        }),
{
    if round > 0 {
        let previous = creator.candidates((round - 1) as Round);
        if round <= creator.rounds.len() {
            assert(creator.rounds[round - 1].len() == creator.n_members.0);
        }
        nodes::law_listed_in_order(previous);
        nodes::law_threshold_two_thirds(creator.n_members.0 as nat);
    }
}

/// The first unit of a creator in some round becomes the candidate; nothing else changes.
pub proof fn law_candidate_noted<V>(creator: CreatorView<V>, unit: UnitView<V>)
    requires
        unit.pre_unit.coord.creator.0 < creator.n_members.0,
        forall|r: int|
            0 <= r < creator.rounds.len() ==> (#[trigger] creator.rounds[r]).len()
                == creator.n_members.0,
    ensures
        ({
            let after = creator.with_unit(unit);
            let round = unit.pre_unit.coord.round;
            let i = unit.pre_unit.coord.creator.0 as int;
            &&& after.node_id == creator.node_id
            &&& after.n_members == creator.n_members
            &&& after.rounds.len() > round
            &&& after.rounds.len() >= creator.rounds.len()
            &&& creator.candidates(round)[i] is None ==> after.candidates(round)[i] == Some(
                unit.hash,
            )
            &&& creator.candidates(round)[i] is Some ==> after.candidates(round)[i]
                == creator.candidates(round)[i]
            &&& forall|r: Round, j: int|
                0 <= j < creator.n_members.0 && (r != round || j != i)
                    ==> #[trigger] after.candidates(r)[j] == creator.candidates(r)[j]
            &&& forall|r: int|
                0 <= r < after.rounds.len() ==> (#[trigger] after.rounds[r]).len()
                    == creator.n_members.0
        }),
{
    let after = creator.with_unit(unit);
    assert forall|r: int| 0 <= r < after.rounds.len() implies (#[trigger] after.rounds[r]).len()
        == creator.n_members.0 by {
        if r < creator.rounds.len() {
            assert(creator.rounds[r].len() == creator.n_members.0);
        }
        assert(creator.candidates(r as Round).len() == creator.n_members.0);
    }
}

/// A created unit is by its creator and of its round, says of exactly the members with a parent that
/// they have one, and its control hash is made of the parents. The parents come with it, in the order
/// of the members.
pub proof fn law_created_unit_contents<H: Hasher>(
    node_id: NodeIndex,
    parents: Seq<Option<HashOf<H>>>,
    round: Round,
)
    requires
        parents.len() <= usize::MAX,
    ensures
        ({
            let (unit, hashes) = unit_with_parents::<H>(node_id, parents, round);
            let mask = unit.control_hash.parents_mask;
            &&& unit.coord.round == round
            &&& unit.coord.creator == node_id
            &&& mask.len() == parents.len()
            &&& forall|i: int|
                0 <= i < parents.len() ==> #[trigger] mask[i] == (parents[i] is Some)
            &&& unit.control_hash.combined_hash == units::combined_hash::<H>(parents)
            &&& hashes.len() == nodes::held(parents)
            &&& forall|i: int|
                0 <= i < parents.len() ==> (#[trigger] parents[i] matches Some(hash)
                    ==> hashes[nodes::held(parents.take(i)) as int] == hash)
        }),
{
    nodes::law_listed_in_order(parents);
}

} // verus!
