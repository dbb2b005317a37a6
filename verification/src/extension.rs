//! Reporting batches of units once their place in the total order is settled.
use crate::crypto::{HashOf, Hasher};
use crate::dag::unit::{DagUnit, DagUnitView};
use crate::data::Data;
use crate::member::finalization::{OrderedUnit, OrderedUnitView};
use crate::nodes;
use crate::units;
use crate::units::FullUnit;
use vstd::prelude::*;

verus! {

/// What is reported of a unit: its data, the hashes of its parents, its own hash, its creator and
/// its round.
pub open spec fn reported<H: Hasher, D: Data, S: Data>(
    unit: DagUnitView<HashOf<H>, D::V, S::V>,
) -> OrderedUnitView<HashOf<H>, D::V> {
    OrderedUnitView {
        data: unit.unit.signable.data,
        parents: nodes::values(unit.parents),
        hash: units::unit_hash::<H, D>(unit.unit.signable),
        creator: unit.unit.signable.creator(),
        round: unit.unit.signable.round(),
    }
}

/// What is reported of a batch of units.
pub open spec fn batch_reported<H: Hasher, D: Data, S: Data>(
    batch: Seq<DagUnitView<HashOf<H>, D::V, S::V>>,
) -> Seq<OrderedUnitView<HashOf<H>, D::V>> {
    batch.map_values(|unit: DagUnitView<HashOf<H>, D::V, S::V>| reported::<H, D, S>(unit))
}

/// What is reported of a batch of units.
pub fn handle_batch<H: Hasher, D: Data, S: Data>(batch: Vec<DagUnit<H, D, S>>) -> (result: Vec<
    OrderedUnit<D, H>,
>)
    ensures
        result.deep_view() == batch_reported::<H, D, S>(batch.deep_view()),
{
    let ghost all = batch.deep_view();
    let ghost expected = batch_reported::<H, D, S>(all);
    let mut result: Vec<OrderedUnit<D, H>> = Vec::new();
    let n: usize = batch.len();
    proof {
        assert(result.deep_view() =~= expected.take(0));
    }
    for i in 0..n
        invariant
            n == batch@.len(),
            all == batch.deep_view(),
            expected == batch_reported::<H, D, S>(all),
            result.deep_view() == expected.take(i as int),
    {
        let ghost before = result.deep_view();
        let unit: &DagUnit<H, D, S> = &batch[i];
        let full_unit: &FullUnit<H, D> = unit.as_signed().as_signable();
        let ordered: OrderedUnit<D, H> = OrderedUnit {
            data: full_unit.data().copy(),
            parents: unit.parents().values(),
            hash: unit.hash(),
            creator: unit.creator(),
            round: unit.round(),
        };
        proof {
            assert(all[i as int] == unit.deep_view());
            assert(ordered.deep_view() =~= expected[i as int]);
        }
        result.push(ordered);
        proof {
            assert(result.deep_view() =~= before.push(expected[i as int]));
            assert(result.deep_view() =~= expected.take(i + 1));
        }
    }
    proof {
        assert(expected.take(n as int) =~= expected);
    }
    result
}

/// What is reported of some batches, one after another.
pub fn handle_batches<H: Hasher, D: Data, S: Data>(batches: Vec<Vec<DagUnit<H, D, S>>>) -> (result:
    Vec<Vec<OrderedUnit<D, H>>>)
    ensures
        result.deep_view() == batches.deep_view().map_values(
            |batch: Seq<DagUnitView<HashOf<H>, D::V, S::V>>| batch_reported::<H, D, S>(batch),
        ),
{
    let ghost all = batches.deep_view();
    let ghost expected = all.map_values(
        |batch: Seq<DagUnitView<HashOf<H>, D::V, S::V>>| batch_reported::<H, D, S>(batch),
    );
    let mut rest: Vec<Vec<DagUnit<H, D, S>>> = batches;
    let mut result: Vec<Vec<OrderedUnit<D, H>>> = Vec::new();
    proof {
        assert(result.deep_view() =~= expected.take(0));
        assert(rest.deep_view() =~= all.skip(0));
    }
    while rest.len() > 0
        invariant
            expected == all.map_values(
                |batch: Seq<DagUnitView<HashOf<H>, D::V, S::V>>| batch_reported::<H, D, S>(batch),
            ),
            result@.len() + rest@.len() == all.len(),
            rest.deep_view() == all.skip(result@.len() as int),
            result.deep_view() == expected.take(result@.len() as int),
        decreases rest@.len(),
    {
        let ghost i = result@.len() as int;
        let ghost before = result.deep_view();
        let ghost waiting = rest.deep_view();
        let batch: Vec<DagUnit<H, D, S>> = rest.remove(0);
        proof {
            assert(batch.deep_view() == waiting[0]);
            assert(waiting[0] == all[i]);
            assert(rest.deep_view() =~= waiting.remove(0));
            assert(waiting.remove(0) =~= all.skip(i + 1));
        }
        result.push(handle_batch(batch));
        proof {
            assert(result.deep_view() =~= before.push(expected[i]));
            assert(result.deep_view() =~= expected.take(i + 1));
        }
    }
    proof {
        assert(expected.take(all.len() as int) =~= expected);
    }
    result
}

/// Every unit of a batch is reported at its place, with its own data, hash, creator and round; its
/// parents are all of those that it has, in the order of the members.
pub proof fn law_batch_reported_as_it_is<H: Hasher, D: Data, S: Data>(
    batch: Seq<DagUnitView<HashOf<H>, D::V, S::V>>,
)
    requires
        forall|i: int| 0 <= i < batch.len() ==> (#[trigger] batch[i]).parents.len() <= usize::MAX,
    ensures
        ({
            let result = batch_reported::<H, D, S>(batch);
            &&& result.len() == batch.len()
            &&& forall|i: int|
                0 <= i < batch.len() ==> {
                    let unit = batch[i];
                    let told = #[trigger] result[i];
                    &&& told.data == unit.unit.signable.data
                    &&& told.hash == units::unit_hash::<H, D>(unit.unit.signable)
                    &&& told.creator == unit.unit.signable.pre_unit.coord.creator
                    &&& told.round == unit.unit.signable.pre_unit.coord.round
                    &&& told.parents.len() == nodes::held(unit.parents)
                }
            &&& forall|i: int, p: int|
                #![trigger batch[i].parents[p]]
                0 <= i < batch.len() && 0 <= p < batch[i].parents.len() ==> (
                batch[i].parents[p] matches Some(hash)
                    ==> result[i].parents[nodes::held(batch[i].parents.take(p)) as int] == hash)
        }),
{
    let result = batch_reported::<H, D, S>(batch);
    assert forall|i: int| 0 <= i < batch.len() implies (#[trigger] result[i]).parents.len()
        == nodes::held(batch[i].parents) by {
        nodes::law_listed_in_order(batch[i].parents);
    }
    assert forall|i: int, p: int|
        #![trigger batch[i].parents[p]]
        0 <= i < batch.len() && 0 <= p < batch[i].parents.len() implies (
    batch[i].parents[p] matches Some(hash)
        ==> result[i].parents[nodes::held(batch[i].parents.take(p)) as int] == hash) by {
        nodes::law_listed_in_order(batch[i].parents);
    }
}

} // verus!
