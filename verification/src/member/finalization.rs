//! Handing over data once its place in the total order is settled.
use crate::crypto::{HashOf, Hasher};
use crate::data::Data;
use crate::nodes::{NodeIndex, Round};
use std::marker::PhantomData;
use vstd::prelude::*;

verus! {

/// The model of a unit in the total order.
#[verifier::ext_equal]
pub struct OrderedUnitView<V, D> {
    pub data: Option<D>,
    pub parents: Seq<V>,
    pub hash: V,
    pub creator: NodeIndex,
    pub round: Round,
}

/// A unit whose place in the total order is settled.
pub struct OrderedUnit<D: Data, H: Hasher> {
    pub data: Option<D>,
    pub parents: Vec<H::Hash>,
    pub hash: H::Hash,
    pub creator: NodeIndex,
    pub round: Round,
}

impl<D: Data, H: Hasher> DeepView for OrderedUnit<D, H> {
    type V = OrderedUnitView<HashOf<H>, D::V>;

    open spec fn deep_view(&self) -> OrderedUnitView<HashOf<H>, D::V> {
        OrderedUnitView {
            data: self.data.deep_view(),
            parents: self.parents.deep_view(),
            hash: self.hash.deep_view(),
            creator: self.creator,
            round: self.round,
        }
    }
}

/// Gets data in the order that all the members agree on.
pub trait FinalizationHandler<D: Data> {
    /// The data that it got.
    spec fn finalized(&self) -> Seq<D::V>;

    /// Gets the next piece of data.
    fn data_finalized(&mut self, data: D)
        ensures
            final(self).finalized() == old(self).finalized().push(data.deep_view()),
    ;
}

/// Keeps all the data that it gets.
pub struct KeptData<D: Data> {
    data: Vec<D>,
}

impl<D: Data> KeptData<D> {
    pub fn new() -> (result: Self)
        ensures
            result.finalized() == Seq::<D::V>::empty(),
    {
        let result = KeptData { data: Vec::new() };
        proof {
            assert(result.finalized() =~= Seq::<D::V>::empty());
        }
        result
    }

    /// The data, in order.
    pub fn data(&self) -> (data: &Vec<D>)
        ensures
            data.deep_view() == self.finalized(),
    {
        &self.data
    }
}

impl<D: Data> FinalizationHandler<D> for KeptData<D> {
    closed spec fn finalized(&self) -> Seq<D::V> {
        self.data.deep_view()
    }

    fn data_finalized(&mut self, data: D) {
        let ghost added = data.deep_view();
        self.data.push(data);
        proof {
            assert(self.finalized() =~= old(self).finalized().push(added));
        }
    }
}

/// The data in a batch of units; some units have none.
pub open spec fn data_in<V, D>(batch: Seq<OrderedUnitView<V, D>>) -> Seq<D>
    decreases batch.len(),
{
    if batch.len() == 0 {
        seq![]
    } else {
        let before = data_in(batch.drop_last());
        match batch.last().data {
            Some(data) => before.push(data),
            None => before,
        }
    }
}

/// This adapter allows to map an implementation of [`FinalizationHandler`] onto the handling of
/// batches of units.
pub struct FinalizationHandlerAdapter<FH, D, H> {
    finalization_handler: FH,
    phantom: PhantomData<(D, H)>,
}

impl<FH, D, H> FinalizationHandlerAdapter<FH, D, H> {
    /// The handler that gets the data.
    pub closed spec fn handler(&self) -> FH {
        self.finalization_handler
    }

    /// Gives the handler away.
    pub fn into_inner(self) -> (handler: FH)
        ensures
            handler == self.handler(),
    {
        self.finalization_handler
    }
}

impl<FH, D, H> From<FH> for FinalizationHandlerAdapter<FH, D, H> {
    fn from(value: FH) -> (result: Self)
        ensures
            result.handler() == value,
    {
        FinalizationHandlerAdapter { finalization_handler: value, phantom: PhantomData }
    }
}

impl<FH, D, H> vstd::std_specs::convert::FromSpecImpl<FH> for FinalizationHandlerAdapter<FH, D, H> {
    open spec fn obeys_from_spec() -> bool {
        true
    }

    closed spec fn from_spec(value: FH) -> Self {
        FinalizationHandlerAdapter { finalization_handler: value, phantom: PhantomData }
    }
}

impl<D: Data, H: Hasher, FH: FinalizationHandler<D>> FinalizationHandlerAdapter<FH, D, H> {
    /// Hands over the data in a batch, in order.
    pub fn batch_finalized(&mut self, batch: Vec<OrderedUnit<D, H>>)
        ensures
            final(self).handler().finalized() == old(self).handler().finalized() + data_in(
                batch.deep_view(),
            ),
    {
        let ghost all = batch.deep_view();
        let ghost start = self.handler().finalized();
        let n: usize = batch.len();
        proof {
            assert(all.take(0) =~= seq![]);
            assert(start + data_in(all.take(0)) =~= start);
        }
        for i in 0..n
            invariant
                n == batch@.len(),
                all == batch.deep_view(),
                start == old(self).handler().finalized(),
                self.handler().finalized() == start + data_in(all.take(i as int)),
        {
            proof {
                assert(all.take(i + 1).drop_last() =~= all.take(i as int));
                assert(all.take(i + 1).last() == batch@[i as int].deep_view());
            }
            if let Some(data) = &batch[i].data {
                self.finalization_handler.data_finalized(data.copy());
                proof {
                    assert(self.handler().finalized() =~= start + data_in(all.take(i + 1)));
                }
            }
        }
        proof {
            assert(all.take(n as int) =~= all);
        }
    }
}

/// The units of a batch that have data.
pub open spec fn with_data<V, D>(batch: Seq<OrderedUnitView<V, D>>) -> Seq<OrderedUnitView<V, D>> {
    batch.filter(|unit: OrderedUnitView<V, D>| unit.data is Some)
}

proof fn lemma_with_data<V, D>(batch: Seq<OrderedUnitView<V, D>>)
    requires
        batch.len() > 0,
    ensures
        with_data(batch) == (if batch.last().data is Some {
            with_data(batch.drop_last()).push(batch.last())
        } else {
            with_data(batch.drop_last())
        }),
{
    reveal(Seq::filter);
}

/// What is handed over of a batch is the data of exactly those units that have some: there are as
/// many pieces as units with data, and the data of each unit stands behind as many pieces as units
/// with data come before it. Nothing else about the units matters.
pub proof fn law_all_data_in_order<V, D>(batch: Seq<OrderedUnitView<V, D>>)
    ensures
        data_in(batch).len() == with_data(batch).len(),
        forall|i: int|
            0 <= i < batch.len() ==> ((#[trigger] batch[i]).data matches Some(data) ==> {
                let place = with_data(batch.take(i)).len();
                place < data_in(batch).len() && data_in(batch)[place as int] == data
            }),
    decreases batch.len(),
{
    if batch.len() > 0 {
        let rest = batch.drop_last();
        law_all_data_in_order(rest);
        lemma_with_data(batch);
        assert forall|i: int| 0 <= i < batch.len() implies ((
        #[trigger] batch[i]).data matches Some(data) ==> {
            let place = with_data(batch.take(i)).len();
            place < data_in(batch).len() && data_in(batch)[place as int] == data
        }) by {
            if i < rest.len() {
                assert(rest[i] == batch[i]);
                assert(rest.take(i) =~= batch.take(i));
            } else {
                assert(batch.take(i) =~= rest);
            }
        }
    } else {
        reveal(Seq::filter);
    }
}

/// Two batches whose units have the same data, whatever else they have, are handed over alike.
pub proof fn law_only_data_matters<V, D>(
    one: Seq<OrderedUnitView<V, D>>,
    other: Seq<OrderedUnitView<V, D>>,
)
    requires
        one.len() == other.len(),
        forall|i: int| 0 <= i < one.len() ==> (#[trigger] one[i]).data == other[i].data,
    ensures
        data_in(one) == data_in(other),
    decreases one.len(),
{
    if one.len() > 0 {
        assert forall|i: int| 0 <= i < one.len() - 1 implies (#[trigger] one.drop_last()[i]).data
            == other.drop_last()[i].data by {
            assert(one[i].data == other[i].data);
        }
        law_only_data_matters(one.drop_last(), other.drop_last());
        assert(one[one.len() - 1].data == other[one.len() - 1].data);
    }
}

/// Batches are handed over one behind the other: handing them over together makes no difference.
pub proof fn law_batches_one_by_one<V, D>(
    first: Seq<OrderedUnitView<V, D>>,
    second: Seq<OrderedUnitView<V, D>>,
)
    ensures
        data_in(first + second) == data_in(first) + data_in(second),
    decreases second.len(),
{
    let both = first + second;
    if second.len() == 0 {
        assert(both =~= first);
        assert(data_in(first) + data_in(second) =~= data_in(first));
    } else {
        assert(both.drop_last() =~= first + second.drop_last());
        assert(both.last() == second.last());
        law_batches_one_by_one(first, second.drop_last());
        assert(data_in(both) =~= data_in(first) + data_in(second));
    }
}

} // verus!
