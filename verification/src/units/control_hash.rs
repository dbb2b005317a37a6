//! Control hashes of units whose parents may come from different rounds.
use crate::codec_error::CodecError;
use crate::crypto::{HashOf, Hasher};
use crate::data::{
    behind, lemma_both_encoded, no_encoding, part_failure, skip_part, Data, Encoding,
};
use crate::nodes;
use crate::nodes::{NodeCount, NodeIndex, NodeMap, Round};
use crate::units::UnitCoord;
use vstd::prelude::*;
use vstd::string::StringExecFns;

verus! {

/// What can be wrong with the parents of a unit.
#[derive(Clone, Copy, Debug, PartialEq, Eq, Structural)]
pub enum Error {
    NotDescendantOfPreviousUnit(NodeIndex),
    DescendantOfPreviousUnitButWrongRound(Round),
    NotEnoughParentsForRound(Round),
    ParentsHigherThanRound(Round),
}

/// The model of a control hash.
#[verifier::ext_equal]
pub struct ControlHashView<V> {
    pub parents: Seq<Option<Round>>,
    pub combined_hash: V,
}

/// Combined hashes of the parents of a unit together with the set of indices of creators of the
/// parents. By parent here we mean a parent hash and its round.
pub struct ControlHash<H: Hasher> {
    parents: NodeMap<Round>,
    combined_hash: H::Hash,
}

impl<H: Hasher> DeepView for ControlHash<H> {
    type V = ControlHashView<HashOf<H>>;

    closed spec fn deep_view(&self) -> ControlHashView<HashOf<H>> {
        ControlHashView {
            parents: self.parents.deep_view(),
            combined_hash: self.combined_hash.deep_view(),
        }
    }
}

/// The rounds of the parents.
pub open spec fn rounds<V>(parent_map: Seq<Option<(V, Round)>>) -> Seq<Option<Round>> {
    Seq::new(
        parent_map.len(),
        |i: int|
            match parent_map[i] {
                Some((_, round)) => Some(round),
                None => None,
            },
    )
}

/// One hash for all the parents and their rounds.
pub open spec fn combined_hash<H: Hasher>(parent_map: Seq<Option<(HashOf<H>, Round)>>) -> HashOf<
    H,
> {
    H::hashed(NodeMap::<(H::Hash, Round)>::encoded(parent_map))
}

/// The coordinates of the parents, in the order of their creators.
pub open spec fn parent_coords(parents: Seq<Option<Round>>) -> Seq<UnitCoord> {
    nodes::present(parents).map_values(
        |i: NodeIndex| UnitCoord { round: nodes::at(parents, i)->0, creator: i },
    )
}

/// How many parents come from a round.
pub open spec fn parents_at(parents: Seq<Option<Round>>, round: Round) -> nat {
    parents.filter(|parent: Option<Round>| parent == Some(round)).len()
}

/// Whether some parent comes from a later round.
pub open spec fn parents_after(parents: Seq<Option<Round>>, round: int) -> bool {
    exists|i: int| 0 <= i < parents.len() && (#[trigger] parents[i] matches Some(r) && r > round)
}

/// What is wrong, if anything, with the parents of a unit at these coordinates: there has to be
/// one by the same creator and enough of them from the previous round, and none later than that.
pub open spec fn verdict(parents: Seq<Option<Round>>, coord: UnitCoord) -> Result<(), Error> {
    let previous = (coord.round - 1) as Round;
    match nodes::at(parents, coord.creator) {
        None => Err(Error::NotDescendantOfPreviousUnit(coord.creator)),
        Some(round) => if round != previous {
            Err(Error::DescendantOfPreviousUnitButWrongRound(round))
        } else if parents_at(parents, previous) < nodes::threshold(parents.len()) {
            Err(Error::NotEnoughParentsForRound(previous))
        } else if parents_after(parents, previous as int) {
            Err(Error::ParentsHigherThanRound(previous))
        } else {
            Ok(())
        },
    }
}

impl<H: Hasher> ControlHash<H> {
    /// Creates new control hash from parents hashes and rounds.
    pub fn new(parent_map: &NodeMap<(H::Hash, Round)>) -> (result: Self)
        ensures
            result.deep_view() == (ControlHashView {
                parents: rounds(parent_map.deep_view()),
                combined_hash: combined_hash::<H>(parent_map.deep_view()),
            }),
    {
        let size: NodeCount = parent_map.size();
        let n: usize = size.0;
        let mut parents: NodeMap<Round> = NodeMap::with_size(size);
        let ghost map = parent_map.deep_view();
        for i in 0..n
            invariant
                n == map.len(),
                map == parent_map.deep_view(),
                parents.deep_view().len() == n,
                forall|j: int| 0 <= j < i ==> #[trigger] parents.deep_view()[j] == rounds(map)[j],
                forall|j: int| i <= j < n ==> #[trigger] parents.deep_view()[j] is None,
        {
            if let Some(parent) = parent_map.get(NodeIndex(i)) {
                parents.insert(NodeIndex(i), parent.1);
            }
        }
        proof {
            assert(parents.deep_view() =~= rounds(map));
        }
        ControlHash { parents, combined_hash: Self::create_control_hash(parent_map) }
    }

    /// Calculates parent control hash, which takes all parent hashes and their rounds into account.
    pub fn create_control_hash(parent_map: &NodeMap<(H::Hash, Round)>) -> (hash: H::Hash)
        ensures
            hash.deep_view() == combined_hash::<H>(parent_map.deep_view()),
    {
        let bytes: Vec<u8> = parent_map.encode();
        H::hash(&bytes)
    }

    /// The coordinates of the parents, in the order of their creators.
    pub fn parents(&self) -> (parents: Vec<UnitCoord>)
        ensures
            parents@ == parent_coords(self.deep_view().parents),
    {
        let keys: Vec<NodeIndex> = self.parents.keys();
        let n: usize = keys.len();
        let mut result: Vec<UnitCoord> = Vec::new();
        let ghost map = self.deep_view().parents;
        proof {
            self.parents.lemma_size();
            nodes::lemma_present(map);
        }
        for i in 0..n
            invariant
                n == keys@.len(),
                map == self.parents.deep_view(),
                keys@ == nodes::present(map),
                forall|a: int|
                    0 <= a < keys@.len() ==> nodes::at(map, #[trigger] keys@[a]) is Some,
                result@ == parent_coords(map).take(i as int),
        {
            proof {
                assert(nodes::at(map, keys@[i as int]) is Some);
            }
            if let Some(round) = self.parents.get(keys[i]) {
                result.push(UnitCoord::new(*round, keys[i]));
            }
            proof {
                assert(result@ =~= parent_coords(map).take(i + 1));
            }
        }
        proof {
            assert(result@ =~= parent_coords(map));
        }
        result
    }

    /// Returns number of non-empty parents.
    pub fn n_parents(&self) -> (n: NodeCount)
        ensures
            n.0 == nodes::present(self.deep_view().parents).len(),
    {
        NodeCount(self.parents.item_count())
    }

    /// Returns number of all members in the committee.
    pub fn n_members(&self) -> (n: NodeCount)
        ensures
            n.0 == self.deep_view().parents.len(),
    {
        self.parents.size()
    }

    /// Checks the parents of a unit that is not an initial one.
    pub fn validate(&self, unit_coord: UnitCoord) -> (result: Result<(), Error>)
        requires
            unit_coord.round > 0,
        ensures
            result == verdict(self.deep_view().parents, unit_coord),
    {
        self.unit_creator_is_descendant_of_previous_unit(unit_coord)?;
        self.previous_round_have_enough_parents(unit_coord)?;
        self.check_if_parents_greater_than_previous_round(unit_coord)?;
        Ok(())
    }

    fn check_if_parents_greater_than_previous_round(&self, unit_coord: UnitCoord) -> (result: Result<
        (),
        Error,
    >)
        requires
            unit_coord.round > 0,
        ensures
            result == (if parents_after(self.deep_view().parents, unit_coord.round - 1) {
                Err(Error::ParentsHigherThanRound((unit_coord.round - 1) as Round))
            } else {
                Ok::<(), Error>(())
            }),
    {
        let n: usize = self.parents.size().0;
        let ghost map = self.deep_view().parents;
        for i in 0..n
            invariant
                n == map.len(),
                map == self.parents.deep_view(),
                unit_coord.round > 0,
                forall|j: int|
                    0 <= j < i ==> (#[trigger] map[j] matches Some(r) ==> r <= unit_coord.round - 1),
        {
            if let Some(round) = self.parents.get(NodeIndex(i)) {
                if *round > unit_coord.round - 1 {
                    proof {
                        assert(map[i as int] == Some(*round));
                    }
                    return Err(Error::ParentsHigherThanRound(unit_coord.round - 1));
                }
            }
        }
        Ok(())
    }

    fn previous_round_have_enough_parents(&self, unit_coord: UnitCoord) -> (result: Result<
        (),
        Error,
    >)
        requires
            unit_coord.round > 0,
        ensures
            result == (if parents_at(
                self.deep_view().parents,
                (unit_coord.round - 1) as Round,
            ) < nodes::threshold(self.deep_view().parents.len()) {
                Err(Error::NotEnoughParentsForRound((unit_coord.round - 1) as Round))
            } else {
                Ok::<(), Error>(())
            }),
    {
        let previous: Round = unit_coord.round - 1;
        let n: usize = self.parents.size().0;
        let mut count: usize = 0;
        let ghost map = self.deep_view().parents;
        let ghost wanted = |parent: Option<Round>| parent == Some(previous);
        proof {
            assert(map.take(0).filter(wanted) =~= seq![]);
        }
        for i in 0..n
            invariant
                n == map.len(),
                map == self.parents.deep_view(),
                wanted == (|parent: Option<Round>| parent == Some(previous)),
                count == map.take(i as int).filter(wanted).len(),
                count <= i,
        {
            if let Some(round) = self.parents.get(NodeIndex(i)) {
                if *round == previous {
                    count = count + 1;
                }
            }
            proof {
                reveal(Seq::filter);
                assert(map.take(i + 1).drop_last() =~= map.take(i as int));
            }
        }
        proof {
            assert(map.take(n as int) =~= map);
        }
        if count < self.n_members().consensus_threshold().0 {
            return Err(Error::NotEnoughParentsForRound(previous));
        }
        Ok(())
    }

    fn unit_creator_is_descendant_of_previous_unit(&self, unit_coord: UnitCoord) -> (result: Result<
        (),
        Error,
    >)
        requires
            unit_coord.round > 0,
        ensures
            result == (match nodes::at(self.deep_view().parents, unit_coord.creator) {
                None => Err(Error::NotDescendantOfPreviousUnit(unit_coord.creator)),
                Some(round) => if round != unit_coord.round - 1 {
                    Err(Error::DescendantOfPreviousUnitButWrongRound(round))
                } else {
                    Ok::<(), Error>(())
                },
            }),
    {
        match self.parents.get(unit_coord.creator) {
            None => Err(Error::NotDescendantOfPreviousUnit(unit_coord.creator)),
            Some(parent_round) => {
                if unit_coord.round - 1 != *parent_round {
                    Err(Error::DescendantOfPreviousUnitButWrongRound(*parent_round))
                } else {
                    Ok(())
                }
            },
        }
    }
}

impl<H: Hasher> Encoding for ControlHash<H> {
    open spec fn valid(v: ControlHashView<HashOf<H>>) -> bool {
        <(NodeMap<Round>, H::Hash)>::valid(
            (v.parents, v.combined_hash),
        )
    }

    open spec fn encoded(v: ControlHashView<HashOf<H>>) -> Seq<u8> {
        <(NodeMap<Round>, H::Hash)>::encoded(
            (v.parents, v.combined_hash),
        )
    }

    open spec fn failure(bytes: Seq<u8>) -> Seq<Seq<char>> {
        if no_encoding::<NodeMap<Round>>(bytes) {
            part_failure::<NodeMap<Round>>(
                "Could not decode `ControlHash::parents`"@,
                bytes,
            )
        } else {
            let behind_parents = behind::<NodeMap<Round>>(bytes);
            part_failure::<H::Hash>(
                "Could not decode `ControlHash::combined_hash`"@,
                behind_parents,
            )
        }
    }

    open spec fn in_bulk() -> bool {
        false
    }

    open spec fn shown(v: ControlHashView<HashOf<H>>) -> Seq<char> {
        "ControlHash { parents: "@ + <NodeMap<Round>>::shown(v.parents)
            + ", combined_hash: "@ + H::Hash::shown(v.combined_hash) + " }"@
    }
}

impl<H: Hasher> Data for ControlHash<H> {
    proof fn lemma_valid(&self) {
        self.parents.lemma_valid();
        self.combined_hash.lemma_valid();
    }

    proof fn lemma_prefix_free(
        v: ControlHashView<HashOf<H>>,
        w: ControlHashView<HashOf<H>>,
        bytes: Seq<u8>,
    ) {
        <(NodeMap<Round>, H::Hash)>::lemma_prefix_free(
            (v.parents, v.combined_hash),
            (w.parents, w.combined_hash),
            bytes,
        );
    }

    fn copy(&self) -> (other: Self) {
        ControlHash {
            parents: self.parents.copy(),
            combined_hash: self.combined_hash.copy(),
        }
    }

    fn equals(&self, other: &Self) -> (equal: bool) {
        self.parents.equals(&other.parents)
            && self.combined_hash.equals(&other.combined_hash)
    }

    fn encode_to(&self, out: &mut Vec<u8>) {
        let ghost start = out@;
        self.parents.encode_to(out);
        self.combined_hash.encode_to(out);
        proof {
            assert(out@ =~= start + Self::encoded(self.deep_view()));
        }
    }

    fn decode(input: &Vec<u8>, pos: usize) -> (result: Option<(Self, usize)>) {
        match <(NodeMap<Round>, H::Hash)>::decode(
            input,
            pos,
        ) {
            Some(((parents, combined_hash), end)) => {
                Some((ControlHash { parents, combined_hash }, end))
            },
            None => {
                proof {
                    let rest = input@.skip(pos as int);
                    assert forall|v: ControlHashView<HashOf<H>>| Self::valid(v) implies !(
                    #[trigger] Self::encoded(v)).is_prefix_of(rest) by {
                        assert(!<(NodeMap<Round>, H::Hash)>::encoded(
                            (v.parents, v.combined_hash),
                        ).is_prefix_of(rest));
                    }
                }
                None
            },
        }
    }

    fn explain(input: &Vec<u8>, pos: usize) -> (error: CodecError) {
        let ghost rest = input@.skip(pos as int);
        let behind_parents: usize = match skip_part::<NodeMap<Round>>(
            input,
            pos,
            "Could not decode `ControlHash::parents`",
        ) {
            Ok(end) => end,
            Err(error) => {
                return error;
            },
        };
        match skip_part::<H::Hash>(
            input,
            behind_parents,
            "Could not decode `ControlHash::combined_hash`",
        ) {
            Err(error) => error,
            Ok(_) => {
                proof {
                    lemma_both_encoded::<NodeMap<Round>, H::Hash>(rest);
                    let t = choose|t: <(NodeMap<Round>, H::Hash) as DeepView>::V|
                        <(NodeMap<Round>, H::Hash)>::valid(t) && (#[trigger] <(NodeMap<Round>, H::Hash)>::encoded(
                            t,
                        )).is_prefix_of(rest);
                    assert(Self::encoded(
                        ControlHashView { parents: t.0, combined_hash: t.1 },
                    ).is_prefix_of(rest));
                }
                CodecError::new(String::new())
            },
        }
    }

    fn reads_in_bulk() -> (bulk: bool) {
        false
    }

    fn show(&self, out: &mut String) {
        let ghost start = out@;
        out.append("ControlHash { parents: ");
        self.parents.show(out);
        out.append(", combined_hash: ");
        self.combined_hash.show(out);
        out.append(" }");
        proof {
            assert(out@ =~= start + Self::shown(self.deep_view()));
        }
    }
}

} // verus!
