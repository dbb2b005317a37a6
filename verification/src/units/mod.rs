//! Units: what the members of the committee create, sign and send.
use crate::codec_error::CodecError;
use crate::crypto::{HashOf, Hasher, Index, Signable};
use crate::data::{
    behind, lemma_both_encoded, no_encoding, part_failure, skip_part, Data, Encoding,
};
use crate::nodes;
use crate::nodes::{NodeCount, NodeIndex, NodeMap, NodeSubset, Round, SessionId};
use crate::signed::{Signed, UncheckedSigned};
use vstd::prelude::*;
use vstd::string::StringExecFns;

pub mod control_hash;
pub mod laws;
pub mod store;
pub mod validator;

verus! {

/// The coordinates of a unit, i.e. creator and round. In the absence of forks this uniquely
/// determines a unit within a session.
#[derive(Clone, Copy, Debug, PartialEq, Eq, Hash, Structural)]
pub struct UnitCoord {
    pub round: Round,
    pub creator: NodeIndex,
}

impl DeepView for UnitCoord {
    type V = UnitCoord;

    open spec fn deep_view(&self) -> UnitCoord {
        *self
    }
}

impl UnitCoord {
    pub fn new(round: Round, creator: NodeIndex) -> (coord: Self)
        ensures
            coord == (UnitCoord { round, creator }),
    {
        UnitCoord { round, creator }
    }

    pub fn creator(&self) -> (creator: NodeIndex)
        ensures
            creator == self.creator,
    {
        self.creator
    }

    pub fn round(&self) -> (round: Round)
        ensures
            round == self.round,
    {
        self.round
    }
}

impl Encoding for UnitCoord {
    open spec fn valid(v: UnitCoord) -> bool {
        <(Round, NodeIndex)>::valid(
            (v.round, v.creator),
        )
    }

    open spec fn encoded(v: UnitCoord) -> Seq<u8> {
        <(Round, NodeIndex)>::encoded(
            (v.round, v.creator),
        )
    }

    open spec fn failure(bytes: Seq<u8>) -> Seq<Seq<char>> {
        if no_encoding::<Round>(bytes) {
            part_failure::<Round>(
                "Could not decode `UnitCoord::round`"@,
                bytes,
            )
        } else {
            let behind_round = behind::<Round>(bytes);
            part_failure::<NodeIndex>(
                "Could not decode `UnitCoord::creator`"@,
                behind_round,
            )
        }
    }

    open spec fn in_bulk() -> bool {
        false
    }

    open spec fn shown(v: UnitCoord) -> Seq<char> {
        "UnitCoord { round: "@ + Round::shown(v.round)
            + ", creator: "@ + NodeIndex::shown(v.creator) + " }"@
    }
}

impl Data for UnitCoord {
    proof fn lemma_valid(&self) {
        self.round.lemma_valid();
        self.creator.lemma_valid();
    }

    proof fn lemma_prefix_free(
        v: UnitCoord,
        w: UnitCoord,
        bytes: Seq<u8>,
    ) {
        <(Round, NodeIndex)>::lemma_prefix_free(
            (v.round, v.creator),
            (w.round, w.creator),
            bytes,
        );
    }

    fn copy(&self) -> (other: Self) {
        *self
    }

    fn equals(&self, other: &Self) -> (equal: bool) {
        self.round.equals(&other.round)
            && self.creator.equals(&other.creator)
    }

    fn encode_to(&self, out: &mut Vec<u8>) {
        let ghost start = out@;
        self.round.encode_to(out);
        self.creator.encode_to(out);
        proof {
            assert(out@ =~= start + Self::encoded(self.deep_view()));
        }
    }

    fn decode(input: &Vec<u8>, pos: usize) -> (result: Option<(Self, usize)>) {
        match <(Round, NodeIndex)>::decode(
            input,
            pos,
        ) {
            Some(((round, creator), end)) => {
                Some((UnitCoord { round, creator }, end))
            },
            None => {
                proof {
                    let rest = input@.skip(pos as int);
                    assert forall|v: UnitCoord| Self::valid(v) implies !(
                    #[trigger] Self::encoded(v)).is_prefix_of(rest) by {
                        assert(!<(Round, NodeIndex)>::encoded(
                            (v.round, v.creator),
                        ).is_prefix_of(rest));
                    }
                }
                None
            },
        }
    }

    fn explain(input: &Vec<u8>, pos: usize) -> (error: CodecError) {
        let ghost rest = input@.skip(pos as int);
        let behind_round: usize = match skip_part::<Round>(
            input,
            pos,
            "Could not decode `UnitCoord::round`",
        ) {
            Ok(end) => end,
            Err(error) => {
                return error;
            },
        };
        match skip_part::<NodeIndex>(
            input,
            behind_round,
            "Could not decode `UnitCoord::creator`",
        ) {
            Err(error) => error,
            Ok(_) => {
                proof {
                    lemma_both_encoded::<Round, NodeIndex>(rest);
                    let t = choose|t: <(Round, NodeIndex) as DeepView>::V|
                        <(Round, NodeIndex)>::valid(t) && (#[trigger] <(Round, NodeIndex)>::encoded(
                            t,
                        )).is_prefix_of(rest);
                    assert(Self::encoded(
                        UnitCoord { round: t.0, creator: t.1 },
                    ).is_prefix_of(rest));
                }
                CodecError::new(String::new())
            },
        }
    }

    fn reads_in_bulk() -> (bulk: bool) {
        false
    }

    fn show(&self, out: &mut String) {
        let ghost start = out@;
        out.append("UnitCoord { round: ");
        self.round.show(out);
        out.append(", creator: ");
        self.creator.show(out);
        out.append(" }");
        proof {
            assert(out@ =~= start + Self::shown(self.deep_view()));
        }
    }
}

/// The model of a control hash.
#[verifier::ext_equal]
pub struct ControlHashView<V> {
    pub parents_mask: Seq<bool>,
    pub combined_hash: V,
}

/// Combined hashes of the parents of a unit together with the set of indices of creators of the
/// parents.
pub struct ControlHash<H: Hasher> {
    parents_mask: NodeSubset,
    combined_hash: H::Hash,
}

impl<H: Hasher> DeepView for ControlHash<H> {
    type V = ControlHashView<HashOf<H>>;

    closed spec fn deep_view(&self) -> ControlHashView<HashOf<H>> {
        ControlHashView {
            parents_mask: self.parents_mask.deep_view(),
            combined_hash: self.combined_hash.deep_view(),
        }
    }
}

/// One hash for all the parents: that of the encoding of the map of their hashes.
pub open spec fn combined_hash<H: Hasher>(parent_map: Seq<Option<HashOf<H>>>) -> HashOf<H> {
    H::hashed(NodeMap::<H::Hash>::encoded(parent_map))
}

/// The control hash of a unit with these parents.
pub open spec fn control_hash_of<H: Hasher>(parent_map: Seq<Option<HashOf<H>>>) -> ControlHashView<
    HashOf<H>,
> {
    ControlHashView {
        parents_mask: nodes::mask(parent_map),
        combined_hash: combined_hash::<H>(parent_map),
    }
}

impl<H: Hasher> ControlHash<H> {
    /// The control hash of a unit with these parents.
    pub fn new(parent_map: &NodeMap<H::Hash>) -> (result: Self)
        ensures
            result.deep_view() == control_hash_of::<H>(parent_map.deep_view()),
    {
        ControlHash {
            parents_mask: parent_map.to_subset(),
            combined_hash: Self::combine_hashes(parent_map),
        }
    }

    /// One hash for all the parents.
    pub fn combine_hashes(parent_map: &NodeMap<H::Hash>) -> (hash: H::Hash)
        ensures
            hash.deep_view() == combined_hash::<H>(parent_map.deep_view()),
    {
        let bytes: Vec<u8> = parent_map.encode();
        H::hash(&bytes)
    }

    /// The creators of the parents, in order.
    pub fn parents(&self) -> (parents: Vec<NodeIndex>)
        ensures
            parents@ == nodes::elements(self.deep_view().parents_mask),
    {
        self.parents_mask.elements()
    }

    pub fn n_parents(&self) -> (n: NodeCount)
        ensures
            n.0 == nodes::elements(self.deep_view().parents_mask).len(),
    {
        NodeCount(self.parents_mask.len())
    }

    pub fn n_members(&self) -> (n: NodeCount)
        ensures
            n.0 == self.deep_view().parents_mask.len(),
    {
        NodeCount(self.parents_mask.size())
    }

    /// Whether some parent is by this creator.
    pub fn has_parent(&self, creator: NodeIndex) -> (result: bool)
        ensures
            result == nodes::has(self.deep_view().parents_mask, creator),
    {
        self.parents_mask.contains(creator)
    }

    pub fn combined_hash(&self) -> (hash: H::Hash)
        ensures
            hash.deep_view() == self.deep_view().combined_hash,
    {
        self.combined_hash.copy()
    }
}

impl<H: Hasher> Encoding for ControlHash<H> {
    open spec fn valid(v: ControlHashView<HashOf<H>>) -> bool {
        <(NodeSubset, H::Hash)>::valid(
            (v.parents_mask, v.combined_hash),
        )
    }

    open spec fn encoded(v: ControlHashView<HashOf<H>>) -> Seq<u8> {
        <(NodeSubset, H::Hash)>::encoded(
            (v.parents_mask, v.combined_hash),
        )
    }

    open spec fn failure(bytes: Seq<u8>) -> Seq<Seq<char>> {
        if no_encoding::<NodeSubset>(bytes) {
            part_failure::<NodeSubset>(
                "Could not decode `ControlHash::parents_mask`"@,
                bytes,
            )
        } else {
            let behind_parents_mask = behind::<NodeSubset>(bytes);
            part_failure::<H::Hash>(
                "Could not decode `ControlHash::combined_hash`"@,
                behind_parents_mask,
            )
        }
    }

    open spec fn in_bulk() -> bool {
        false
    }

    open spec fn shown(v: ControlHashView<HashOf<H>>) -> Seq<char> {
        "ControlHash { parents_mask: "@ + NodeSubset::shown(v.parents_mask)
            + ", combined_hash: "@ + H::Hash::shown(v.combined_hash) + " }"@
    }
}

impl<H: Hasher> Data for ControlHash<H> {
    proof fn lemma_valid(&self) {
        self.parents_mask.lemma_valid();
        self.combined_hash.lemma_valid();
    }

    proof fn lemma_prefix_free(
        v: ControlHashView<HashOf<H>>,
        w: ControlHashView<HashOf<H>>,
        bytes: Seq<u8>,
    ) {
        <(NodeSubset, H::Hash)>::lemma_prefix_free(
            (v.parents_mask, v.combined_hash),
            (w.parents_mask, w.combined_hash),
            bytes,
        );
    }

    fn copy(&self) -> (other: Self) {
        ControlHash {
            parents_mask: self.parents_mask.copy(),
            combined_hash: self.combined_hash.copy(),
        }
    }

    fn equals(&self, other: &Self) -> (equal: bool) {
        self.parents_mask.equals(&other.parents_mask)
            && self.combined_hash.equals(&other.combined_hash)
    }

    fn encode_to(&self, out: &mut Vec<u8>) {
        let ghost start = out@;
        self.parents_mask.encode_to(out);
        self.combined_hash.encode_to(out);
        proof {
            assert(out@ =~= start + Self::encoded(self.deep_view()));
        }
    }

    fn decode(input: &Vec<u8>, pos: usize) -> (result: Option<(Self, usize)>) {
        match <(NodeSubset, H::Hash)>::decode(
            input,
            pos,
        ) {
            Some(((parents_mask, combined_hash), end)) => {
                Some((ControlHash { parents_mask, combined_hash }, end))
            },
            None => {
                proof {
                    let rest = input@.skip(pos as int);
                    assert forall|v: ControlHashView<HashOf<H>>| Self::valid(v) implies !(
                    #[trigger] Self::encoded(v)).is_prefix_of(rest) by {
                        assert(!<(NodeSubset, H::Hash)>::encoded(
                            (v.parents_mask, v.combined_hash),
                        ).is_prefix_of(rest));
                    }
                }
                None
            },
        }
    }

    fn explain(input: &Vec<u8>, pos: usize) -> (error: CodecError) {
        let ghost rest = input@.skip(pos as int);
        let behind_parents_mask: usize = match skip_part::<NodeSubset>(
            input,
            pos,
            "Could not decode `ControlHash::parents_mask`",
        ) {
            Ok(end) => end,
            Err(error) => {
                return error;
            },
        };
        match skip_part::<H::Hash>(
            input,
            behind_parents_mask,
            "Could not decode `ControlHash::combined_hash`",
        ) {
            Err(error) => error,
            Ok(_) => {
                proof {
                    lemma_both_encoded::<NodeSubset, H::Hash>(rest);
                    let t = choose|t: <(NodeSubset, H::Hash) as DeepView>::V|
                        <(NodeSubset, H::Hash)>::valid(t) && (#[trigger] <(NodeSubset, H::Hash)>::encoded(
                            t,
                        )).is_prefix_of(rest);
                    assert(Self::encoded(
                        ControlHashView { parents_mask: t.0, combined_hash: t.1 },
                    ).is_prefix_of(rest));
                }
                CodecError::new(String::new())
            },
        }
    }

    fn reads_in_bulk() -> (bulk: bool) {
        false
    }

    fn show(&self, out: &mut String) {
        let ghost start = out@;
        out.append("ControlHash { parents_mask: ");
        self.parents_mask.show(out);
        out.append(", combined_hash: ");
        self.combined_hash.show(out);
        out.append(" }");
        proof {
            assert(out@ =~= start + Self::shown(self.deep_view()));
        }
    }
}

/// The model of a unit without its data.
#[verifier::ext_equal]
pub struct PreUnitView<V> {
    pub coord: UnitCoord,
    pub control_hash: ControlHashView<V>,
}

/// The simplest type representing a unit, consisting of coordinates and a control hash.
pub struct PreUnit<H: Hasher> {
    coord: UnitCoord,
    control_hash: ControlHash<H>,
}

impl<H: Hasher> DeepView for PreUnit<H> {
    type V = PreUnitView<HashOf<H>>;

    closed spec fn deep_view(&self) -> PreUnitView<HashOf<H>> {
        PreUnitView { coord: self.coord, control_hash: self.control_hash.deep_view() }
    }
}

impl<H: Hasher> PreUnit<H> {
    pub fn new(creator: NodeIndex, round: Round, control_hash: ControlHash<H>) -> (result: Self)
        ensures
            result.deep_view() == (PreUnitView {
                coord: UnitCoord { round, creator },
                control_hash: control_hash.deep_view(),
            }),
    {
        PreUnit { coord: UnitCoord::new(round, creator), control_hash }
    }

    pub fn n_parents(&self) -> (n: NodeCount)
        ensures
            n.0 == nodes::elements(self.deep_view().control_hash.parents_mask).len(),
    {
        self.control_hash.n_parents()
    }

    pub fn n_members(&self) -> (n: NodeCount)
        ensures
            n.0 == self.deep_view().control_hash.parents_mask.len(),
    {
        self.control_hash.n_members()
    }

    pub fn creator(&self) -> (creator: NodeIndex)
        ensures
            creator == self.deep_view().coord.creator,
    {
        self.coord.creator()
    }

    pub fn round(&self) -> (round: Round)
        ensures
            round == self.deep_view().coord.round,
    {
        self.coord.round()
    }

    pub fn coord(&self) -> (coord: UnitCoord)
        ensures
            coord == self.deep_view().coord,
    {
        self.coord
    }

    pub fn control_hash(&self) -> (control_hash: &ControlHash<H>)
        ensures
            control_hash.deep_view() == self.deep_view().control_hash,
    {
        &self.control_hash
    }
}

impl<H: Hasher> Encoding for PreUnit<H> {
    open spec fn valid(v: PreUnitView<HashOf<H>>) -> bool {
        <(UnitCoord, ControlHash<H>)>::valid(
            (v.coord, v.control_hash),
        )
    }

    open spec fn encoded(v: PreUnitView<HashOf<H>>) -> Seq<u8> {
        <(UnitCoord, ControlHash<H>)>::encoded(
            (v.coord, v.control_hash),
        )
    }

    open spec fn failure(bytes: Seq<u8>) -> Seq<Seq<char>> {
        if no_encoding::<UnitCoord>(bytes) {
            part_failure::<UnitCoord>(
                "Could not decode `PreUnit::coord`"@,
                bytes,
            )
        } else {
            let behind_coord = behind::<UnitCoord>(bytes);
            part_failure::<ControlHash<H>>(
                "Could not decode `PreUnit::control_hash`"@,
                behind_coord,
            )
        }
    }

    open spec fn in_bulk() -> bool {
        false
    }

    open spec fn shown(v: PreUnitView<HashOf<H>>) -> Seq<char> {
        "PreUnit { coord: "@ + UnitCoord::shown(v.coord)
            + ", control_hash: "@ + <ControlHash<H>>::shown(v.control_hash) + " }"@
    }
}

impl<H: Hasher> Data for PreUnit<H> {
    proof fn lemma_valid(&self) {
        self.coord.lemma_valid();
        self.control_hash.lemma_valid();
    }

    proof fn lemma_prefix_free(
        v: PreUnitView<HashOf<H>>,
        w: PreUnitView<HashOf<H>>,
        bytes: Seq<u8>,
    ) {
        <(UnitCoord, ControlHash<H>)>::lemma_prefix_free(
            (v.coord, v.control_hash),
            (w.coord, w.control_hash),
            bytes,
        );
    }

    fn copy(&self) -> (other: Self) {
        PreUnit {
            coord: self.coord.copy(),
            control_hash: self.control_hash.copy(),
        }
    }

    fn equals(&self, other: &Self) -> (equal: bool) {
        self.coord.equals(&other.coord)
            && self.control_hash.equals(&other.control_hash)
    }

    fn encode_to(&self, out: &mut Vec<u8>) {
        let ghost start = out@;
        self.coord.encode_to(out);
        self.control_hash.encode_to(out);
        proof {
            assert(out@ =~= start + Self::encoded(self.deep_view()));
        }
    }

    fn decode(input: &Vec<u8>, pos: usize) -> (result: Option<(Self, usize)>) {
        match <(UnitCoord, ControlHash<H>)>::decode(
            input,
            pos,
        ) {
            Some(((coord, control_hash), end)) => {
                Some((PreUnit { coord, control_hash }, end))
            },
            None => {
                proof {
                    let rest = input@.skip(pos as int);
                    assert forall|v: PreUnitView<HashOf<H>>| Self::valid(v) implies !(
                    #[trigger] Self::encoded(v)).is_prefix_of(rest) by {
                        assert(!<(UnitCoord, ControlHash<H>)>::encoded(
                            (v.coord, v.control_hash),
                        ).is_prefix_of(rest));
                    }
                }
                None
            },
        }
    }

    fn explain(input: &Vec<u8>, pos: usize) -> (error: CodecError) {
        let ghost rest = input@.skip(pos as int);
        let behind_coord: usize = match skip_part::<UnitCoord>(
            input,
            pos,
            "Could not decode `PreUnit::coord`",
        ) {
            Ok(end) => end,
            Err(error) => {
                return error;
            },
        };
        match skip_part::<ControlHash<H>>(
            input,
            behind_coord,
            "Could not decode `PreUnit::control_hash`",
        ) {
            Err(error) => error,
            Ok(_) => {
                proof {
                    lemma_both_encoded::<UnitCoord, ControlHash<H>>(rest);
                    let t = choose|t: <(UnitCoord, ControlHash<H>) as DeepView>::V|
                        <(UnitCoord, ControlHash<H>)>::valid(t) && (#[trigger] <(UnitCoord, ControlHash<H>)>::encoded(
                            t,
                        )).is_prefix_of(rest);
                    assert(Self::encoded(
                        PreUnitView { coord: t.0, control_hash: t.1 },
                    ).is_prefix_of(rest));
                }
                CodecError::new(String::new())
            },
        }
    }

    fn reads_in_bulk() -> (bulk: bool) {
        false
    }

    fn show(&self, out: &mut String) {
        let ghost start = out@;
        out.append("PreUnit { coord: ");
        self.coord.show(out);
        out.append(", control_hash: ");
        self.control_hash.show(out);
        out.append(" }");
        proof {
            assert(out@ =~= start + Self::shown(self.deep_view()));
        }
    }
}

/// The model of a unit.
#[verifier::ext_equal]
pub struct FullUnitView<V, D> {
    pub pre_unit: PreUnitView<V>,
    pub data: Option<D>,
    pub session_id: SessionId,
}

impl<V, D> FullUnitView<V, D> {
    pub open spec fn coord(self) -> UnitCoord {
        self.pre_unit.coord
    }

    pub open spec fn creator(self) -> NodeIndex {
        self.pre_unit.coord.creator
    }

    pub open spec fn round(self) -> Round {
        self.pre_unit.coord.round
    }
}

/// The hash of a unit: that of its encoding.
pub open spec fn unit_hash<H: Hasher, D: Data>(v: FullUnitView<HashOf<H>, D::V>) -> HashOf<H> {
    H::hashed(FullUnit::<H, D>::encoded(v))
}

/// A unit with its data, session and hash.
pub struct FullUnit<H: Hasher, D: Data> {
    pre_unit: PreUnit<H>,
    data: Option<D>,
    session_id: SessionId,
    hash: H::Hash,
}

impl<H: Hasher, D: Data> DeepView for FullUnit<H, D> {
    type V = FullUnitView<HashOf<H>, D::V>;

    closed spec fn deep_view(&self) -> FullUnitView<HashOf<H>, D::V> {
        FullUnitView {
            pre_unit: self.pre_unit.deep_view(),
            data: self.data.deep_view(),
            session_id: self.session_id,
        }
    }
}

impl<H: Hasher, D: Data> Encoding for FullUnit<H, D> {
    open spec fn valid(v: FullUnitView<HashOf<H>, D::V>) -> bool {
        <(PreUnit<H>, (Option<D>, SessionId))>::valid(
            (v.pre_unit, (v.data, v.session_id)),
        )
    }

    open spec fn encoded(v: FullUnitView<HashOf<H>, D::V>) -> Seq<u8> {
        <(PreUnit<H>, (Option<D>, SessionId))>::encoded(
            (v.pre_unit, (v.data, v.session_id)),
        )
    }

    open spec fn failure(bytes: Seq<u8>) -> Seq<Seq<char>> {
        if no_encoding::<PreUnit<H>>(bytes) {
            part_failure::<PreUnit<H>>(
                "Could not decode `FullUnit::pre_unit`"@,
                bytes,
            )
        } else {
            let behind_pre_unit = behind::<PreUnit<H>>(bytes);
            if no_encoding::<Option<D>>(behind_pre_unit) {
                part_failure::<Option<D>>(
                    "Could not decode `FullUnit::data`"@,
                    behind_pre_unit,
                )
            } else {
                let behind_data = behind::<Option<D>>(behind_pre_unit);
                part_failure::<SessionId>(
                    "Could not decode `FullUnit::session_id`"@,
                    behind_data,
                )
            }
        }
    }

    open spec fn in_bulk() -> bool {
        false
    }

    open spec fn shown(v: FullUnitView<HashOf<H>, D::V>) -> Seq<char> {
        "FullUnit { pre_unit: "@ + <PreUnit<H>>::shown(v.pre_unit)
            + ", data: "@ + <Option<D>>::shown(v.data)
            + ", session_id: "@ + SessionId::shown(v.session_id)
            + ", hash: RwLock { data: Some("@ + H::Hash::shown(H::hashed(Self::encoded(v))) + ") }"@ + " }"@
    }
}

impl<H: Hasher, D: Data> FullUnit<H, D> {
    #[verifier::type_invariant]
    spec fn well_formed(self) -> bool {
        self.hash.deep_view() == unit_hash::<H, D>(self.deep_view())
    }

    pub fn new(pre_unit: PreUnit<H>, data: Option<D>, session_id: SessionId) -> (result: Self)
        ensures
            result.deep_view() == (FullUnitView {
                pre_unit: pre_unit.deep_view(),
                data: data.deep_view(),
                session_id,
            }),
    {
        let mut bytes: Vec<u8> = Vec::new();
        pre_unit.encode_to(&mut bytes);
        data.encode_to(&mut bytes);
        session_id.encode_to(&mut bytes);
        proof {
            assert(bytes@ =~= <(PreUnit<H>, (Option<D>, SessionId))>::encoded(
                (pre_unit.deep_view(), (data.deep_view(), session_id)),
            ));
        }
        let hash: H::Hash = H::hash(&bytes);
        FullUnit { pre_unit, data, session_id, hash }
    }

    pub fn as_pre_unit(&self) -> (pre_unit: &PreUnit<H>)
        ensures
            pre_unit.deep_view() == self.deep_view().pre_unit,
    {
        &self.pre_unit
    }

    pub fn creator(&self) -> (creator: NodeIndex)
        ensures
            creator == self.deep_view().creator(),
    {
        self.pre_unit.creator()
    }

    pub fn round(&self) -> (round: Round)
        ensures
            round == self.deep_view().round(),
    {
        self.pre_unit.round()
    }

    pub fn control_hash(&self) -> (control_hash: &ControlHash<H>)
        ensures
            control_hash.deep_view() == self.deep_view().pre_unit.control_hash,
    {
        self.pre_unit.control_hash()
    }

    pub fn coord(&self) -> (coord: UnitCoord)
        ensures
            coord == self.deep_view().coord(),
    {
        self.pre_unit.coord()
    }

    pub fn data(&self) -> (data: &Option<D>)
        ensures
            data.deep_view() == self.deep_view().data,
    {
        &self.data
    }

    /// The data as a list of one or no items.
    pub fn included_data(&self) -> (result: Vec<D>)
        ensures
            result.deep_view() == (match self.deep_view().data {
                Some(d) => seq![d],
                None => seq![],
            }),
    {
        let mut result: Vec<D> = Vec::new();
        if let Some(d) = &self.data {
            result.push(d.copy());
            proof {
                assert(result.deep_view() =~= seq![d.deep_view()]);
            }
        } else {
            proof {
                assert(result.deep_view() =~= seq![]);
            }
        }
        result
    }

    pub fn session_id(&self) -> (session_id: SessionId)
        ensures
            session_id == self.deep_view().session_id,
    {
        self.session_id
    }

    pub fn hash(&self) -> (hash: H::Hash)
        ensures
            hash.deep_view() == unit_hash::<H, D>(self.deep_view()),
    {
        proof {
            use_type_invariant(self);
        }
        self.hash.copy()
    }

    /// The unit without its data.
    pub fn unit(&self) -> (unit: Unit<H>)
        ensures
            unit.deep_view() == (UnitView {
                pre_unit: self.deep_view().pre_unit,
                hash: unit_hash::<H, D>(self.deep_view()),
            }),
    {
        Unit::new(self.pre_unit.copy(), self.hash())
    }
}

impl<H: Hasher, D: Data> Data for FullUnit<H, D> {
    proof fn lemma_valid(&self) {
        self.pre_unit.lemma_valid();
        self.data.lemma_valid();
        self.session_id.lemma_valid();
    }

    proof fn lemma_prefix_free(
        v: FullUnitView<HashOf<H>, D::V>,
        w: FullUnitView<HashOf<H>, D::V>,
        bytes: Seq<u8>,
    ) {
        <(PreUnit<H>, (Option<D>, SessionId))>::lemma_prefix_free(
            (v.pre_unit, (v.data, v.session_id)),
            (w.pre_unit, (w.data, w.session_id)),
            bytes,
        );
    }

    fn copy(&self) -> (other: Self) {
        proof {
            use_type_invariant(self);
        }
        FullUnit {
            pre_unit: self.pre_unit.copy(),
            data: self.data.copy(),
            session_id: self.session_id,
            hash: self.hash.copy(),
        }
    }

    fn equals(&self, other: &Self) -> (equal: bool) {
        self.pre_unit.equals(&other.pre_unit)
            && self.data.equals(&other.data)
            && self.session_id.equals(&other.session_id)
    }

    fn encode_to(&self, out: &mut Vec<u8>) {
        let ghost start = out@;
        self.pre_unit.encode_to(out);
        self.data.encode_to(out);
        self.session_id.encode_to(out);
        proof {
            assert(out@ =~= start + Self::encoded(self.deep_view()));
        }
    }

    fn decode(input: &Vec<u8>, pos: usize) -> (result: Option<(Self, usize)>) {
        match <(PreUnit<H>, (Option<D>, SessionId))>::decode(
            input,
            pos,
        ) {
            Some(((pre_unit, (data, session_id)), end)) => {
                Some((FullUnit::new(pre_unit, data, session_id), end))
            },
            None => {
                proof {
                    let rest = input@.skip(pos as int);
                    assert forall|v: FullUnitView<HashOf<H>, D::V>| Self::valid(v) implies !(
                    #[trigger] Self::encoded(v)).is_prefix_of(rest) by {
                        assert(!<(PreUnit<H>, (Option<D>, SessionId))>::encoded(
                            (v.pre_unit, (v.data, v.session_id)),
                        ).is_prefix_of(rest));
                    }
                }
                None
            },
        }
    }

    fn explain(input: &Vec<u8>, pos: usize) -> (error: CodecError) {
        let ghost rest = input@.skip(pos as int);
        let behind_pre_unit: usize = match skip_part::<PreUnit<H>>(
            input,
            pos,
            "Could not decode `FullUnit::pre_unit`",
        ) {
            Ok(end) => end,
            Err(error) => {
                return error;
            },
        };
        let behind_data: usize = match skip_part::<Option<D>>(
            input,
            behind_pre_unit,
            "Could not decode `FullUnit::data`",
        ) {
            Ok(end) => end,
            Err(error) => {
                return error;
            },
        };
        match skip_part::<SessionId>(
            input,
            behind_data,
            "Could not decode `FullUnit::session_id`",
        ) {
            Err(error) => error,
            Ok(_) => {
                proof {
                    lemma_both_encoded::<
                        Option<D>,
                        SessionId,
                    >(input@.skip(behind_pre_unit as int));
                    lemma_both_encoded::<
                        PreUnit<H>,
                        (Option<D>, SessionId),
                    >(rest);
                    let t = choose|t: <(PreUnit<H>, (Option<D>, SessionId)) as DeepView>::V|
                        <(PreUnit<H>, (Option<D>, SessionId))>::valid(t) && (#[trigger] <(PreUnit<H>, (Option<D>, SessionId))>::encoded(
                            t,
                        )).is_prefix_of(rest);
                    assert(Self::encoded(
                        FullUnitView { pre_unit: t.0, data: t.1.0, session_id: t.1.1 },
                    ).is_prefix_of(rest));
                }
                CodecError::new(String::new())
            },
        }
    }

    fn reads_in_bulk() -> (bulk: bool) {
        false
    }

    fn show(&self, out: &mut String) {
        proof {
            use_type_invariant(self);
        }
        let ghost start = out@;
        out.append("FullUnit { pre_unit: ");
        self.pre_unit.show(out);
        out.append(", data: ");
        self.data.show(out);
        out.append(", session_id: ");
        self.session_id.show(out);
        out.append(", hash: RwLock { data: Some(");
        self.hash.show(out);
        out.append(") }");
        out.append(" }");
        proof {
            assert(out@ =~= start + Self::shown(self.deep_view()));
        }
    }
}

impl<H: Hasher, D: Data> Signable for FullUnit<H, D> {
    open spec fn message_of(v: FullUnitView<HashOf<H>, D::V>) -> Seq<u8> {
        H::Hash::message_of(unit_hash::<H, D>(v))
    }

    fn message(&self) -> (message: Vec<u8>) {
        self.hash().message()
    }
}

impl<H: Hasher, D: Data> Index for FullUnit<H, D> {
    open spec fn index_of(v: FullUnitView<HashOf<H>, D::V>) -> NodeIndex {
        v.creator()
    }

    fn index(&self) -> (index: NodeIndex) {
        self.creator()
    }
}

/// A unit that comes with a signature nobody has checked.
pub type UncheckedSignedUnit<H, D, S> = UncheckedSigned<FullUnit<H, D>, S>;

/// A unit with a checked signature.
pub type SignedUnit<H, D, S> = Signed<FullUnit<H, D>, S>;

/// The model of a unit without data but with its hash.
#[verifier::ext_equal]
pub struct UnitView<V> {
    pub pre_unit: PreUnitView<V>,
    pub hash: V,
}

impl<V> UnitView<V> {
    pub open spec fn coord(self) -> UnitCoord {
        self.pre_unit.coord
    }

    pub open spec fn creator(self) -> NodeIndex {
        self.pre_unit.coord.creator
    }

    pub open spec fn round(self) -> Round {
        self.pre_unit.coord.round
    }

    /// The creators of the parents, in order.
    pub open spec fn parents(self) -> Seq<NodeIndex> {
        nodes::elements(self.pre_unit.control_hash.parents_mask)
    }

    pub open spec fn n_members(self) -> nat {
        self.pre_unit.control_hash.parents_mask.len()
    }
}

/// A unit without its data, but with its hash.
pub struct Unit<H: Hasher> {
    pre_unit: PreUnit<H>,
    hash: H::Hash,
}

impl<H: Hasher> DeepView for Unit<H> {
    type V = UnitView<HashOf<H>>;

    closed spec fn deep_view(&self) -> UnitView<HashOf<H>> {
        UnitView { pre_unit: self.pre_unit.deep_view(), hash: self.hash.deep_view() }
    }
}

impl<H: Hasher> Unit<H> {
    pub fn new(pre_unit: PreUnit<H>, hash: H::Hash) -> (result: Self)
        ensures
            result.deep_view() == (UnitView {
                pre_unit: pre_unit.deep_view(),
                hash: hash.deep_view(),
            }),
    {
        Unit { pre_unit, hash }
    }

    pub fn creator(&self) -> (creator: NodeIndex)
        ensures
            creator == self.deep_view().creator(),
    {
        self.pre_unit.creator()
    }

    pub fn round(&self) -> (round: Round)
        ensures
            round == self.deep_view().round(),
    {
        self.pre_unit.round()
    }

    pub fn coord(&self) -> (coord: UnitCoord)
        ensures
            coord == self.deep_view().coord(),
    {
        self.pre_unit.coord()
    }

    pub fn control_hash(&self) -> (control_hash: &ControlHash<H>)
        ensures
            control_hash.deep_view() == self.deep_view().pre_unit.control_hash,
    {
        self.pre_unit.control_hash()
    }

    pub fn hash(&self) -> (hash: H::Hash)
        ensures
            hash.deep_view() == self.deep_view().hash,
    {
        self.hash.copy()
    }
}

impl<H: Hasher> Encoding for Unit<H> {
    open spec fn valid(v: UnitView<HashOf<H>>) -> bool {
        <(PreUnit<H>, H::Hash)>::valid(
            (v.pre_unit, v.hash),
        )
    }

    open spec fn encoded(v: UnitView<HashOf<H>>) -> Seq<u8> {
        <(PreUnit<H>, H::Hash)>::encoded(
            (v.pre_unit, v.hash),
        )
    }

    open spec fn failure(bytes: Seq<u8>) -> Seq<Seq<char>> {
        if no_encoding::<PreUnit<H>>(bytes) {
            part_failure::<PreUnit<H>>(
                "Could not decode `Unit::pre_unit`"@,
                bytes,
            )
        } else {
            let behind_pre_unit = behind::<PreUnit<H>>(bytes);
            part_failure::<H::Hash>(
                "Could not decode `Unit::hash`"@,
                behind_pre_unit,
            )
        }
    }

    open spec fn in_bulk() -> bool {
        false
    }

    open spec fn shown(v: UnitView<HashOf<H>>) -> Seq<char> {
        "Unit { pre_unit: "@ + <PreUnit<H>>::shown(v.pre_unit)
            + ", hash: "@ + H::Hash::shown(v.hash) + " }"@
    }
}

impl<H: Hasher> Data for Unit<H> {
    proof fn lemma_valid(&self) {
        self.pre_unit.lemma_valid();
        self.hash.lemma_valid();
    }

    proof fn lemma_prefix_free(
        v: UnitView<HashOf<H>>,
        w: UnitView<HashOf<H>>,
        bytes: Seq<u8>,
    ) {
        <(PreUnit<H>, H::Hash)>::lemma_prefix_free(
            (v.pre_unit, v.hash),
            (w.pre_unit, w.hash),
            bytes,
        );
    }

    fn copy(&self) -> (other: Self) {
        Unit {
            pre_unit: self.pre_unit.copy(),
            hash: self.hash.copy(),
        }
    }

    fn equals(&self, other: &Self) -> (equal: bool) {
        self.pre_unit.equals(&other.pre_unit)
            && self.hash.equals(&other.hash)
    }

    fn encode_to(&self, out: &mut Vec<u8>) {
        let ghost start = out@;
        self.pre_unit.encode_to(out);
        self.hash.encode_to(out);
        proof {
            assert(out@ =~= start + Self::encoded(self.deep_view()));
        }
    }

    fn decode(input: &Vec<u8>, pos: usize) -> (result: Option<(Self, usize)>) {
        match <(PreUnit<H>, H::Hash)>::decode(
            input,
            pos,
        ) {
            Some(((pre_unit, hash), end)) => {
                Some((Unit { pre_unit, hash }, end))
            },
            None => {
                proof {
                    let rest = input@.skip(pos as int);
                    assert forall|v: UnitView<HashOf<H>>| Self::valid(v) implies !(
                    #[trigger] Self::encoded(v)).is_prefix_of(rest) by {
                        assert(!<(PreUnit<H>, H::Hash)>::encoded(
                            (v.pre_unit, v.hash),
                        ).is_prefix_of(rest));
                    }
                }
                None
            },
        }
    }

    fn explain(input: &Vec<u8>, pos: usize) -> (error: CodecError) {
        let ghost rest = input@.skip(pos as int);
        let behind_pre_unit: usize = match skip_part::<PreUnit<H>>(
            input,
            pos,
            "Could not decode `Unit::pre_unit`",
        ) {
            Ok(end) => end,
            Err(error) => {
                return error;
            },
        };
        match skip_part::<H::Hash>(
            input,
            behind_pre_unit,
            "Could not decode `Unit::hash`",
        ) {
            Err(error) => error,
            Ok(_) => {
                proof {
                    lemma_both_encoded::<PreUnit<H>, H::Hash>(rest);
                    let t = choose|t: <(PreUnit<H>, H::Hash) as DeepView>::V|
                        <(PreUnit<H>, H::Hash)>::valid(t) && (#[trigger] <(PreUnit<H>, H::Hash)>::encoded(
                            t,
                        )).is_prefix_of(rest);
                    assert(Self::encoded(
                        UnitView { pre_unit: t.0, hash: t.1 },
                    ).is_prefix_of(rest));
                }
                CodecError::new(String::new())
            },
        }
    }

    fn reads_in_bulk() -> (bulk: bool) {
        false
    }

    fn show(&self, out: &mut String) {
        let ghost start = out@;
        out.append("Unit { pre_unit: ");
        self.pre_unit.show(out);
        out.append(", hash: ");
        self.hash.show(out);
        out.append(" }");
        proof {
            assert(out@ =~= start + Self::shown(self.deep_view()));
        }
    }
}

} // verus!
