//! Committee members and collections indexed by them.
use crate::codec_error::{short_input, CodecError};
use crate::data::{part_failure, skip_part, Data, Encoding};
use crate::scale;
use crate::text::{append_named, named};
use vstd::prelude::*;
use vstd::string::StringExecFns;

verus! {

/// The number of a round.
pub type Round = u16;

/// The number of a session.
pub type SessionId = u64;

/// The index of a committee member.
#[derive(Clone, Copy, Debug, PartialEq, Eq, PartialOrd, Ord, Hash, Structural)]
pub struct NodeIndex(pub usize);

/// A number of committee members.
#[derive(Clone, Copy, Debug, PartialEq, Eq, PartialOrd, Ord, Hash, Structural)]
pub struct NodeCount(pub usize);

/// The number of members that always intersects itself in an honest member: `2n / 3 + 1`.
pub open spec fn threshold(n: nat) -> nat {
    2 * n / 3 + 1
}

impl DeepView for NodeIndex {
    type V = NodeIndex;

    open spec fn deep_view(&self) -> NodeIndex {
        *self
    }
}

impl DeepView for NodeCount {
    type V = NodeCount;

    open spec fn deep_view(&self) -> NodeCount {
        *self
    }
}

impl Encoding for NodeIndex {
    open spec fn valid(v: NodeIndex) -> bool {
        true
    }

    open spec fn encoded(v: NodeIndex) -> Seq<u8> {
        scale::le_bytes(v.0 as nat, 8)
    }

    open spec fn failure(bytes: Seq<u8>) -> Seq<Seq<char>> {
        seq![short_input()]
    }

    open spec fn in_bulk() -> bool {
        false
    }

    open spec fn shown(v: NodeIndex) -> Seq<char> {
        named("NodeIndex"@, v.0 as nat)
    }
}

impl Data for NodeIndex {
    proof fn lemma_valid(&self) {
    }

    proof fn lemma_prefix_free(v: NodeIndex, w: NodeIndex, bytes: Seq<u8>) {
        u64::lemma_prefix_free(v.0 as u64, w.0 as u64, bytes);
    }

    fn copy(&self) -> (other: Self) {
        *self
    }

    fn equals(&self, other: &Self) -> (equal: bool) {
        *self == *other
    }

    fn encode_to(&self, out: &mut Vec<u8>) {
        (self.0 as u64).encode_to(out);
    }

    fn decode(input: &Vec<u8>, pos: usize) -> (result: Option<(Self, usize)>) {
        let ghost rest = input@.skip(pos as int);
        let index: Option<(u64, usize)> = u64::decode(input, pos);
        if let Some((index, end)) = index {
            if index <= usize::MAX as u64 {
                return Some((NodeIndex(index as usize), end));
            }
        }
        proof {
            assert forall|v: NodeIndex| !(#[trigger] Self::encoded(v)).is_prefix_of(rest) by {
                if Self::encoded(v).is_prefix_of(rest) {
                    assert(u64::encoded(v.0 as u64).is_prefix_of(rest));
                    let (read, end) = index->0;
                    crate::data::lemma_subrange_prefix(
                        input@,
                        pos as int,
                        end as int,
                        u64::encoded(read),
                    );
                    u64::lemma_prefix_free(v.0 as u64, read, rest);
                }
            }
        }
        None
    }

    fn explain(input: &Vec<u8>, pos: usize) -> (error: CodecError) {
        CodecError::new(String::from_str("Not enough data to fill buffer"))
    }

    fn reads_in_bulk() -> (bulk: bool) {
        false
    }

    fn show(&self, out: &mut String) {
        append_named(out, "NodeIndex", self.0 as u64);
    }
}

impl NodeCount {
    /// The number of members that agree on something binding: `2n / 3 + 1`.
    pub fn consensus_threshold(&self) -> (result: NodeCount)
        ensures
            result.0 == threshold(self.0 as nat),
    {
        let third: usize = if self.0 % 3 == 0 {
            self.0 / 3
        } else {
            self.0 / 3 + 1
        };
        NodeCount(self.0 - third + 1)
    }

    /// All the indices of a committee of this size, in order.
    pub fn members(&self) -> (indices: Vec<NodeIndex>)
        ensures
            indices@ == Seq::new(self.0 as nat, |i: int| NodeIndex(i as usize)),
    {
        let n: usize = self.0;
        let mut indices: Vec<NodeIndex> = Vec::new();
        for i in 0..n
            invariant
                indices@ == Seq::new(i as nat, |j: int| NodeIndex(j as usize)),
        {
            indices.push(NodeIndex(i));
            proof {
                assert(indices@ =~= Seq::new((i + 1) as nat, |j: int| NodeIndex(j as usize)));
            }
        }
        indices
    }
}

/// What a map holds for a member; nothing for indices outside of the committee.
pub open spec fn at<T>(map: Seq<Option<T>>, i: NodeIndex) -> Option<T> {
    if i.0 < map.len() {
        map[i.0 as int]
    } else {
        None
    }
}

/// The members for which a map holds something, in order.
pub open spec fn present<T>(map: Seq<Option<T>>) -> Seq<NodeIndex>
    decreases map.len(),
{
    if map.len() == 0 {
        seq![]
    } else if map.last() is Some {
        present(map.drop_last()).push(NodeIndex((map.len() - 1) as usize))
    } else {
        present(map.drop_last())
    }
}

/// What a map holds, in the order of the members.
pub open spec fn values<T>(map: Seq<Option<T>>) -> Seq<T>
    decreases map.len(),
{
    if map.len() == 0 {
        seq![]
    } else if map.last() is Some {
        values(map.drop_last()).push(map.last()->0)
    } else {
        values(map.drop_last())
    }
}

/// The empty map of a committee.
pub open spec fn empty<T>(n: nat) -> Seq<Option<T>> {
    Seq::new(n, |i: int| None)
}

/// For which members a map holds something.
pub open spec fn mask<T>(map: Seq<Option<T>>) -> Seq<bool> {
    Seq::new(map.len(), |i: int| map[i] is Some)
}

pub proof fn lemma_present_len<T>(map: Seq<Option<T>>)
    ensures
        present(map).len() == values(map).len(),
        present(map).len() <= map.len(),
    decreases map.len(),
{
    if map.len() > 0 {
        lemma_present_len(map.drop_last());
    }
}

/// The present members are those that the map holds something for, each once and in order.
pub proof fn lemma_present<T>(map: Seq<Option<T>>)
    requires
        map.len() <= usize::MAX + 1,
    ensures
        forall|i: NodeIndex| present(map).contains(i) <==> #[trigger] at(map, i) is Some,
        forall|a: int, b: int|
            0 <= a < b < present(map).len() ==> (#[trigger] present(map)[a]).0 < (
            #[trigger] present(map)[b]).0,
        forall|a: int|
            0 <= a < present(map).len() ==> (#[trigger] present(map)[a]).0 < map.len() && at(
                map,
                present(map)[a],
            ) == Some(values(map)[a]),
    decreases map.len(),
{
    lemma_present_len(map);
    if map.len() > 0 {
        let rest = map.drop_last();
        lemma_present_len(rest);
        lemma_present(rest);
        let last = NodeIndex((map.len() - 1) as usize);
        assert forall|i: NodeIndex| present(map).contains(i) <==> #[trigger] at(map, i) is Some by {
            assert(at(rest, i) is Some <==> present(rest).contains(i));
            if i == last {
                if map.last() is Some {
                    assert(present(map)[present(rest).len() as int] == last);
                }
            } else {
                assert(at(rest, i) == at(map, i));
                if present(rest).contains(i) {
                    let k = choose|k: int| 0 <= k < present(rest).len() && present(rest)[k] == i;
                    assert(present(map)[k] == i);
                }
                if present(map).contains(i) {
                    let k = choose|k: int| 0 <= k < present(map).len() && present(map)[k] == i;
                    assert(present(rest)[k] == i);
                }
            }
        }
        assert forall|a: int| 0 <= a < present(map).len() implies (#[trigger] present(map)[a]).0
            < map.len() && at(map, present(map)[a]) == Some(values(map)[a]) by {
            if a < present(rest).len() {
                assert(present(map)[a] == present(rest)[a]);
            }
        }
        assert forall|a: int, b: int| 0 <= a < b < present(map).len() implies (
        #[trigger] present(map)[a]).0 < (#[trigger] present(map)[b]).0 by {
            assert(present(map)[a] == present(rest)[a]);
            if b < present(rest).len() {
                assert(present(map)[b] == present(rest)[b]);
            }
        }
    }
}

/// One more member has something.
pub proof fn lemma_present_update<V>(map: Seq<Option<V>>, i: int, v: V)
    requires
        0 <= i < map.len(),
        map[i] is None,
    ensures
        present(map.update(i, Some(v))).len() == present(map).len() + 1,
    decreases map.len(),
{
    let after = map.update(i, Some(v));
    if i == map.len() - 1 {
        assert(after.drop_last() =~= map.drop_last());
    } else {
        assert(after.drop_last() =~= map.drop_last().update(i, Some(v)));
        lemma_present_update(map.drop_last(), i, v);
    }
}

/// Nobody has anything in the empty map.
pub proof fn lemma_empty_present<V>(n: nat)
    ensures
        present(empty::<V>(n)).len() == 0,
    decreases n,
{
    if n > 0 {
        assert(empty::<V>(n).drop_last() =~= empty::<V>((n - 1) as nat));
        lemma_empty_present::<V>((n - 1) as nat);
    }
}

/// A map that may hold a value for each member of a committee.
pub struct NodeMap<T> {
    items: Vec<Option<T>>,
}

impl<T: DeepView> DeepView for NodeMap<T> {
    type V = Seq<Option<T::V>>;

    closed spec fn deep_view(&self) -> Seq<Option<T::V>> {
        self.items.deep_view()
    }
}

impl<T: Encoding> Encoding for NodeMap<T> {
    open spec fn valid(v: Seq<Option<T::V>>) -> bool {
        Vec::<Option<T>>::valid(v)
    }

    open spec fn encoded(v: Seq<Option<T::V>>) -> Seq<u8> {
        Vec::<Option<T>>::encoded(v)
    }

    open spec fn failure(bytes: Seq<u8>) -> Seq<Seq<char>> {
        part_failure::<Vec<Option<T>>>("Could not decode `NodeMap.0`"@, bytes)
    }

    open spec fn in_bulk() -> bool {
        false
    }

    open spec fn shown(v: Seq<Option<T::V>>) -> Seq<char> {
        "NodeMap("@ + Vec::<Option<T>>::shown(v) + ")"@
    }
}

impl<T: Data> Data for NodeMap<T> {
    proof fn lemma_valid(&self) {
        self.items.lemma_valid();
    }

    proof fn lemma_prefix_free(v: Seq<Option<T::V>>, w: Seq<Option<T::V>>, bytes: Seq<u8>) {
        Vec::<Option<T>>::lemma_prefix_free(v, w, bytes);
    }

    fn copy(&self) -> (other: Self) {
        NodeMap { items: self.items.copy() }
    }

    fn equals(&self, other: &Self) -> (equal: bool) {
        self.items.equals(&other.items)
    }

    fn encode_to(&self, out: &mut Vec<u8>) {
        self.items.encode_to(out);
    }

    fn decode(input: &Vec<u8>, pos: usize) -> (result: Option<(Self, usize)>) {
        match Vec::<Option<T>>::decode(input, pos) {
            Some((items, end)) => Some((NodeMap { items }, end)),
            None => {
                proof {
                    let rest = input@.skip(pos as int);
                    assert forall|v: Seq<Option<T::V>>| Self::valid(v) implies !(
                    #[trigger] Self::encoded(v)).is_prefix_of(rest) by {
                        assert(!Vec::<Option<T>>::encoded(v).is_prefix_of(rest));
                    }
                }
                None
            },
        }
    }

    fn explain(input: &Vec<u8>, pos: usize) -> (error: CodecError) {
        let ghost rest = input@.skip(pos as int);
        match skip_part::<Vec<Option<T>>>(input, pos, "Could not decode `NodeMap.0`") {
            Err(error) => error,
            Ok(_) => {
                proof {
                    let t = choose|t: Seq<Option<T::V>>|
                        Vec::<Option<T>>::valid(t) && (#[trigger] Vec::<Option<T>>::encoded(
                            t,
                        )).is_prefix_of(rest);
                    assert(Self::encoded(t).is_prefix_of(rest));
                }
                CodecError::new(String::new())
            },
        }
    }

    fn reads_in_bulk() -> (bulk: bool) {
        false
    }

    fn show(&self, out: &mut String) {
        let ghost start = out@;
        out.append("NodeMap(");
        self.items.show(out);
        out.append(")");
        proof {
            assert(out@ =~= start + Self::shown(self.deep_view()));
        }
    }
}

impl<T: DeepView> NodeMap<T> {
    /// A map has no more members than there are indices.
    pub proof fn lemma_size(&self)
        ensures
            self.deep_view().len() <= usize::MAX,
    {
        assert(self.items.len() <= usize::MAX);
    }

    /// The map with these values, by index.
    pub fn from_vec(items: Vec<Option<T>>) -> (map: Self)
        ensures
            map.deep_view() == items.deep_view(),
    {
        NodeMap { items }
    }

    /// The empty map of a committee.
    pub fn with_size(n: NodeCount) -> (map: Self)
        ensures
            map.deep_view() == empty::<T::V>(n.0 as nat),
    {
        let size: usize = n.0;
        let mut items: Vec<Option<T>> = Vec::new();
        for i in 0..size
            invariant
                items@.len() == i,
                forall|j: int| 0 <= j < i ==> #[trigger] items@[j] is None,
        {
            items.push(None);
        }
        let map = NodeMap { items };
        proof {
            assert(map.deep_view() =~= empty::<T::V>(n.0 as nat));
        }
        map
    }

    /// The size of the committee.
    pub fn size(&self) -> (n: NodeCount)
        ensures
            n.0 == self.deep_view().len(),
    {
        NodeCount(self.items.len())
    }

    /// What the map holds for a member.
    pub fn get(&self, node_id: NodeIndex) -> (item: Option<&T>)
        ensures
            item.deep_view() == at(self.deep_view(), node_id),
    {
        if node_id.0 < self.items.len() {
            match &self.items[node_id.0] {
                Some(item) => Some(item),
                None => None,
            }
        } else {
            None
        }
    }

    /// Puts down a value for a member.
    pub fn insert(&mut self, node_id: NodeIndex, item: T)
        requires
            node_id.0 < old(self).deep_view().len(),
        ensures
            final(self).deep_view() == old(self).deep_view().update(
                node_id.0 as int,
                Some(item.deep_view()),
            ),
    {
        let ghost view = item.deep_view();
        self.items.set(node_id.0, Some(item));
        proof {
            assert(self.deep_view() =~= old(self).deep_view().update(
                node_id.0 as int,
                Some(view),
            ));
        }
    }

    /// How many members the map holds a value for.
    pub fn item_count(&self) -> (n: usize)
        ensures
            n == present(self.deep_view()).len(),
            n <= self.deep_view().len(),
    {
        let mut n: usize = 0;
        let size: usize = self.items.len();
        let ghost v = self.deep_view();
        for i in 0..size
            invariant
                size == self.items@.len(),
                v == self.deep_view(),
                n == present(v.take(i as int)).len(),
                n <= i,
        {
            if self.items[i].is_some() {
                n = n + 1;
            }
            proof {
                assert(v.take(i + 1).drop_last() =~= v.take(i as int));
            }
        }
        proof {
            assert(v.take(size as int) =~= v);
        }
        n
    }

    /// The members that the map holds a value for, in order.
    pub fn keys(&self) -> (keys: Vec<NodeIndex>)
        ensures
            keys@ == present(self.deep_view()),
    {
        let mut keys: Vec<NodeIndex> = Vec::new();
        let size: usize = self.items.len();
        let ghost v = self.deep_view();
        for i in 0..size
            invariant
                size == self.items@.len(),
                v == self.deep_view(),
                keys@ == present(v.take(i as int)),
        {
            if self.items[i].is_some() {
                keys.push(NodeIndex(i));
            }
            proof {
                assert(v.take(i + 1).drop_last() =~= v.take(i as int));
            }
        }
        proof {
            assert(v.take(size as int) =~= v);
        }
        keys
    }

    /// For which members the map holds a value.
    pub fn to_subset(&self) -> (subset: NodeSubset)
        ensures
            subset.deep_view() == mask(self.deep_view()),
    {
        let mut items: Vec<bool> = Vec::new();
        let size: usize = self.items.len();
        for i in 0..size
            invariant
                size == self.items@.len(),
                items@ == mask(self.deep_view()).take(i as int),
        {
            items.push(self.items[i].is_some());
            proof {
                assert(items@ =~= mask(self.deep_view()).take(i + 1));
            }
        }
        let subset = NodeSubset { items };
        proof {
            assert(subset.deep_view() =~= mask(self.deep_view()));
        }
        subset
    }
}

impl<T: Data> NodeMap<T> {
    /// Copies of the values, in the order of the members.
    pub fn values(&self) -> (result: Vec<T>)
        ensures
            result.deep_view() == values(self.deep_view()),
    {
        let mut result: Vec<T> = Vec::new();
        let size: usize = self.items.len();
        let ghost v = self.deep_view();
        proof {
            assert(result.deep_view() =~= values(v.take(0)));
        }
        for i in 0..size
            invariant
                size == self.items@.len(),
                v == self.deep_view(),
                result.deep_view() == values(v.take(i as int)),
        {
            let ghost before = result.deep_view();
            if let Some(item) = &self.items[i] {
                result.push(item.copy());
                proof {
                    assert(result.deep_view() =~= before.push(item.deep_view()));
                }
            }
            proof {
                assert(v.take(i + 1).drop_last() =~= v.take(i as int));
            }
        }
        proof {
            assert(v.take(size as int) =~= v);
        }
        result
    }
}

/// A subset of a committee.
pub struct NodeSubset {
    items: Vec<bool>,
}

impl DeepView for NodeSubset {
    type V = Seq<bool>;

    closed spec fn deep_view(&self) -> Seq<bool> {
        self.items@
    }
}

/// The members of a subset, in order.
pub open spec fn elements(subset: Seq<bool>) -> Seq<NodeIndex>
    decreases subset.len(),
{
    if subset.len() == 0 {
        seq![]
    } else if subset.last() {
        elements(subset.drop_last()).push(NodeIndex((subset.len() - 1) as usize))
    } else {
        elements(subset.drop_last())
    }
}

/// Whether a member is in the subset.
pub open spec fn has(subset: Seq<bool>, i: NodeIndex) -> bool {
    i.0 < subset.len() && subset[i.0 as int]
}

/// The elements are the members that the subset has, each once and in order.
pub proof fn lemma_elements(subset: Seq<bool>)
    requires
        subset.len() <= usize::MAX + 1,
    ensures
        elements(subset).len() <= subset.len(),
        forall|i: NodeIndex| elements(subset).contains(i) <==> #[trigger] has(subset, i),
        forall|a: int, b: int|
            0 <= a < b < elements(subset).len() ==> (#[trigger] elements(subset)[a]).0 < (
            #[trigger] elements(subset)[b]).0,
        forall|a: int|
            0 <= a < elements(subset).len() ==> (#[trigger] elements(subset)[a]).0 < subset.len(),
{
    let map = Seq::new(subset.len(), |i: int| if subset[i] { Some(()) } else { None });
    assert(mask(map) =~= subset);
    lemma_mask_elements(map);
    lemma_present_len(map);
    lemma_present(map);
    assert forall|i: NodeIndex| elements(subset).contains(i) <==> #[trigger] has(subset, i) by {
        assert(at(map, i) is Some <==> has(subset, i));
    }
}

/// The subset of the members that a map holds something for has those members.
pub proof fn lemma_mask_elements<T>(map: Seq<Option<T>>)
    ensures
        elements(mask(map)) == present(map),
    decreases map.len(),
{
    if map.len() > 0 {
        assert(mask(map).drop_last() =~= mask(map.drop_last()));
        lemma_mask_elements(map.drop_last());
    }
}

/// One digit for each member of a committee: whether the subset has it.
pub open spec fn bits(subset: Seq<bool>) -> Seq<char>
    decreases subset.len(),
{
    if subset.len() == 0 {
        seq![]
    } else {
        bits(subset.drop_last()) + if subset.last() {
            "1"@
        } else {
            "0"@
        }
    }
}

impl Encoding for NodeSubset {
    open spec fn valid(v: Seq<bool>) -> bool {
        Vec::<bool>::valid(v)
    }

    open spec fn encoded(v: Seq<bool>) -> Seq<u8> {
        Vec::<bool>::encoded(v)
    }

    open spec fn failure(bytes: Seq<u8>) -> Seq<Seq<char>> {
        Vec::<bool>::failure(bytes)
    }

    open spec fn in_bulk() -> bool {
        false
    }

    open spec fn shown(v: Seq<bool>) -> Seq<char> {
        "NodeSubset("@ + bits(v) + ")"@
    }
}

impl Data for NodeSubset {
    proof fn lemma_valid(&self) {
        self.items.lemma_valid();
        assert(self.items.deep_view() =~= self.deep_view());
    }

    proof fn lemma_prefix_free(v: Seq<bool>, w: Seq<bool>, bytes: Seq<u8>) {
        Vec::<bool>::lemma_prefix_free(v, w, bytes);
    }

    fn copy(&self) -> (other: Self) {
        let items: Vec<bool> = self.items.copy();
        proof {
            assert(items@ =~= items.deep_view());
            assert(self.items@ =~= self.items.deep_view());
        }
        NodeSubset { items }
    }

    fn equals(&self, other: &Self) -> (equal: bool) {
        proof {
            assert(self.items@ =~= self.items.deep_view());
            assert(other.items@ =~= other.items.deep_view());
        }
        self.items.equals(&other.items)
    }

    fn encode_to(&self, out: &mut Vec<u8>) {
        proof {
            assert(self.items@ =~= self.items.deep_view());
        }
        self.items.encode_to(out);
    }

    fn decode(input: &Vec<u8>, pos: usize) -> (result: Option<(Self, usize)>) {
        match Vec::<bool>::decode(input, pos) {
            Some((items, end)) => {
                proof {
                    assert(items@ =~= items.deep_view());
                }
                Some((NodeSubset { items }, end))
            },
            None => {
                proof {
                    let rest = input@.skip(pos as int);
                    assert forall|v: Seq<bool>| Self::valid(v) implies !(
                    #[trigger] Self::encoded(v)).is_prefix_of(rest) by {
                        assert(!Vec::<bool>::encoded(v).is_prefix_of(rest));
                    }
                }
                None
            },
        }
    }

    fn explain(input: &Vec<u8>, pos: usize) -> (error: CodecError) {
        proof {
            let rest = input@.skip(pos as int);
            assert forall|v: Seq<bool>| Vec::<bool>::valid(v) implies !(
            #[trigger] Vec::<bool>::encoded(v)).is_prefix_of(rest) by {
                assert(!Self::encoded(v).is_prefix_of(rest));
            }
        }
        Vec::<bool>::explain(input, pos)
    }

    fn reads_in_bulk() -> (bulk: bool) {
        false
    }

    fn show(&self, out: &mut String) {
        let ghost start = out@;
        out.append("NodeSubset(");
        let n: usize = self.items.len();
        for i in 0..n
            invariant
                n == self.items@.len(),
                out@ == start + "NodeSubset("@ + bits(self.items@.take(i as int)),
        {
            if self.items[i] {
                out.append("1");
            } else {
                out.append("0");
            }
            proof {
                let next = self.items@.take(i + 1);
                assert(next.drop_last() =~= self.items@.take(i as int));
                assert(out@ =~= start + "NodeSubset("@ + bits(next));
            }
        }
        out.append(")");
        proof {
            assert(self.items@.take(n as int) =~= self.items@);
            assert(out@ =~= start + Self::shown(self.deep_view()));
        }
    }
}

impl NodeSubset {
    /// The empty subset of a committee.
    pub fn with_size(n: NodeCount) -> (subset: Self)
        ensures
            subset.deep_view() == Seq::new(n.0 as nat, |i: int| false),
    {
        let size: usize = n.0;
        let mut items: Vec<bool> = Vec::new();
        for i in 0..size
            invariant
                items@ == Seq::new(i as nat, |j: int| false),
        {
            items.push(false);
            proof {
                assert(items@ =~= Seq::new((i + 1) as nat, |j: int| false));
            }
        }
        NodeSubset { items }
    }

    /// The size of the committee.
    pub fn size(&self) -> (n: usize)
        ensures
            n == self.deep_view().len(),
    {
        self.items.len()
    }

    /// Whether a member is in the subset.
    pub fn contains(&self, node_id: NodeIndex) -> (result: bool)
        ensures
            result == has(self.deep_view(), node_id),
    {
        node_id.0 < self.items.len() && self.items[node_id.0]
    }

    /// Puts a member into the subset.
    pub fn insert(&mut self, node_id: NodeIndex)
        requires
            node_id.0 < old(self).deep_view().len(),
        ensures
            final(self).deep_view() == old(self).deep_view().update(node_id.0 as int, true),
    {
        self.items.set(node_id.0, true);
    }

    /// The members of the subset, in order.
    pub fn elements(&self) -> (result: Vec<NodeIndex>)
        ensures
            result@ == elements(self.deep_view()),
    {
        let mut result: Vec<NodeIndex> = Vec::new();
        let size: usize = self.items.len();
        let ghost v = self.deep_view();
        for i in 0..size
            invariant
                size == self.items@.len(),
                v == self.items@,
                result@ == elements(v.take(i as int)),
        {
            if self.items[i] {
                result.push(NodeIndex(i));
            }
            proof {
                assert(v.take(i + 1).drop_last() =~= v.take(i as int));
            }
        }
        proof {
            assert(v.take(size as int) =~= v);
        }
        result
    }

    /// How many members the subset has.
    pub fn len(&self) -> (n: usize)
        ensures
            n == elements(self.deep_view()).len(),
    {
        let result: Vec<NodeIndex> = self.elements();
        result.len()
    }
}

/// More than two thirds, and no more than needed: the threshold is the least number of members that
/// is more than two thirds of the committee.
pub proof fn law_threshold_two_thirds(n: nat)
    ensures
        3 * threshold(n) > 2 * n,
        3 * (threshold(n) - 1) <= 2 * n,
{
}

/// How many members a map holds something for.
pub open spec fn held<T>(map: Seq<Option<T>>) -> nat {
    map.filter(|item: Option<T>| item is Some).len()
}

proof fn lemma_held<T>(map: Seq<Option<T>>)
    requires
        map.len() > 0,
    ensures
        held(map) == held(map.drop_last()) + (if map.last() is Some {
            1nat
        } else {
            0nat
        }),
{
    reveal(Seq::filter);
}

/// The members that a map holds something for, and what it holds, are listed in order: each stands
/// behind as many as the map holds for earlier members, and nothing else is listed.
pub proof fn law_listed_in_order<T>(map: Seq<Option<T>>)
    requires
        map.len() <= usize::MAX,
    ensures
        present(map).len() == held(map),
        values(map).len() == held(map),
        forall|i: int|
            0 <= i < map.len() ==> (#[trigger] map[i] matches Some(value) ==> {
                let place = held(map.take(i)) as int;
                &&& place < held(map)
                &&& present(map)[place] == NodeIndex(i as usize)
                &&& values(map)[place] == value
            }),
    decreases map.len(),
{
    if map.len() > 0 {
        let rest = map.drop_last();
        law_listed_in_order(rest);
        lemma_held(map);
        assert forall|i: int| 0 <= i < map.len() implies (#[trigger] map[i] matches Some(value) ==> {
            let place = held(map.take(i)) as int;
            &&& place < held(map)
            &&& present(map)[place] == NodeIndex(i as usize)
            &&& values(map)[place] == value
        }) by {
            if i < rest.len() {
                assert(rest[i] == map[i]);
                assert(rest.take(i) =~= map.take(i));
            } else {
                assert(map.take(i) =~= rest);
            }
        }
    } else {
        reveal(Seq::filter);
    }
}

/// A subset has exactly the members that its elements list, each once and in order, and the subset
/// of those that a map holds something for has exactly those.
pub proof fn law_elements_are_the_members<T>(map: Seq<Option<T>>)
    requires
        map.len() <= usize::MAX,
    ensures
        mask(map).len() == map.len(),
        forall|i: int| 0 <= i < map.len() ==> #[trigger] mask(map)[i] == (map[i] is Some),
        elements(mask(map)).len() == held(map),
        forall|i: int|
            0 <= i < map.len() && (#[trigger] map[i]) is Some ==> elements(
                mask(map),
            )[held(map.take(i)) as int] == NodeIndex(i as usize),
{
    law_listed_in_order(map);
    lemma_mask_elements(map);
}

} // verus!
