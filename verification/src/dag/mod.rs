//! Converts units from the network into ones that are in the Dag, in the correct order.
use crate::alerts::{
    Alert, AlertView, ForkingNotification, ForkingNotificationView, SignedUnitView,
};
use crate::collections::VecMap;
use crate::crypto::{HashOf, Hasher, Keychain, SignatureOf};
use crate::dag::order::{Order, OrderView};
use crate::dag::unit::{DagUnit, DagUnitView};
use crate::dag::validation::{Error as ValidationError, ErrorView, Validator, ValidatorView};
use crate::data::Data;
use crate::nodes::Round;
use crate::reconstruction::parents;
use crate::reconstruction::parents::{
    Reconstruction, ReconstructionResult, ReconstructionView, Request, RequestView, ResultView,
};
use crate::reconstruction::{ReconstructedUnit, ReconstructedView};
use crate::units;
use crate::units::store::{StoreView, UnitStore};
use crate::units::validator::Validator as UnitValidator;
use crate::units::{SignedUnit, UncheckedSignedUnit, UnitCoord, UnitView};
use vstd::prelude::*;

pub mod completeness;
pub mod laws;
pub mod order;
pub mod response;
pub mod unit;
pub mod validation;

verus! {

/// The model of a result.
#[verifier::ext_equal]
pub struct DagResultView<V, D, S> {
    pub units: Seq<DagUnitView<V, D, S>>,
    pub requests: Seq<RequestView<V>>,
    pub alerts: Seq<AlertView<V, D, S>>,
}

impl<V, D, S> DagResultView<V, D, S> {
    pub open spec fn nothing() -> Self {
        DagResultView { units: seq![], requests: seq![], alerts: seq![] }
    }

    pub open spec fn alert(alert: AlertView<V, D, S>) -> Self {
        DagResultView { units: seq![], requests: seq![], alerts: seq![alert] }
    }

    pub open spec fn and(self, other: Self) -> Self {
        DagResultView {
            units: self.units + other.units,
            requests: self.requests + other.requests,
            alerts: self.alerts + other.alerts,
        }
    }
}

/// The result of sending some information to the Dag.
pub struct DagResult<H: Hasher, D: Data, S: Data> {
    units: Vec<DagUnit<H, D, S>>,
    requests: Vec<Request<H>>,
    alerts: Vec<Alert<H, D, S>>,
}

impl<H: Hasher, D: Data, S: Data> DeepView for DagResult<H, D, S> {
    type V = DagResultView<HashOf<H>, D::V, S::V>;

    closed spec fn deep_view(&self) -> DagResultView<HashOf<H>, D::V, S::V> {
        DagResultView {
            units: self.units.deep_view(),
            requests: self.requests.deep_view(),
            alerts: self.alerts.deep_view(),
        }
    }
}

impl<H: Hasher, D: Data, S: Data> DagResult<H, D, S> {
    fn empty() -> (result: Self)
        ensures
            result.deep_view() == DagResultView::<HashOf<H>, D::V, S::V>::nothing(),
    {
        let result = DagResult {
            units: Vec::new(),
            requests: Vec::new(),
            alerts: Vec::new(),
        };
        proof {
            assert(result.deep_view() =~= DagResultView::<HashOf<H>, D::V, S::V>::nothing());
        }
        result
    }

    fn alert(alert: Alert<H, D, S>) -> (result: Self)
        ensures
            result.deep_view() == DagResultView::<HashOf<H>, D::V, S::V>::alert(alert.deep_view()),
    {
        let ghost view = alert.deep_view();
        let mut result = Self::empty();
        result.alerts.push(alert);
        proof {
            assert(result.deep_view() =~= DagResultView::<HashOf<H>, D::V, S::V>::alert(view));
        }
        result
    }

    fn accumulate(&mut self, other: DagResult<H, D, S>)
        ensures
            final(self).deep_view() == old(self).deep_view().and(other.deep_view()),
    {
        let ghost added = other.deep_view();
        let DagResult { mut units, mut requests, mut alerts } = other;
        self.units.append(&mut units);
        self.requests.append(&mut requests);
        self.alerts.append(&mut alerts);
        proof {
            assert(self.deep_view() =~= old(self).deep_view().and(added));
        }
    }

    /// The units in order, the requests and the alerts.
    pub fn into_parts(self) -> (result: (
        Vec<DagUnit<H, D, S>>,
        Vec<Request<H>>,
        Vec<Alert<H, D, S>>,
    ))
        ensures
            result.0.deep_view() == self.deep_view().units,
            result.1.deep_view() == self.deep_view().requests,
            result.2.deep_view() == self.deep_view().alerts,
    {
        (self.units, self.requests, self.alerts)
    }
}

/// The model of a dag: what is being checked, the units whose parents are being reconstructed, the
/// units that wait for their parents, and the signatures of all of them.
#[verifier::ext_equal]
#[verifier::reject_recursive_types(V)]
pub struct DagView<V, D, S> {
    pub validator: ValidatorView<V, D, S>,
    pub reconstruction: ReconstructionView<V>,
    pub order: OrderView<V>,
    pub signed: Map<V, SignedUnitView<V, D, S>>,
}

impl<V, D, S> DagView<V, D, S> {
    pub open spec fn fresh() -> Self {
        DagView {
            validator: ValidatorView::fresh(),
            reconstruction: ReconstructionView::fresh(),
            order: OrderView::fresh(),
            signed: Map::empty(),
        }
    }
}

/// Placed units get their signatures back; the signatures are no longer kept.
pub open spec fn reunited<V, D, S>(
    signed: Map<V, SignedUnitView<V, D, S>>,
    units: Seq<ReconstructedView<V>>,
) -> (Map<V, SignedUnitView<V, D, S>>, Seq<DagUnitView<V, D, S>>)
    decreases units.len(),
{
    if units.len() == 0 {
        (signed, seq![])
    } else {
        let (signed, result) = reunited(signed, units.drop_last());
        let hash = units.last().unit.hash;
        if signed.contains_key(hash) {
            (
                signed.remove(hash),
                result.push(DagUnitView { unit: signed[hash], parents: units.last().parents }),
            )
        } else {
            (signed, result)
        }
    }
}

/// What comes out of the reconstruction is put into order.
pub open spec fn ordered<V, D, S>(state: DagView<V, D, S>, result: ResultView<V>) -> (
    DagView<V, D, S>,
    DagResultView<V, D, S>,
) {
    let (order, placed) = order::all_added(state.order, result.units);
    let (signed, units) = reunited(state.signed, placed);
    (
        DagView { order, signed, ..state },
        DagResultView { units, requests: result.requests, alerts: seq![] },
    )
}

/// A checked unit has its parents reconstructed and is put into order, with all that depends on it.
pub open spec fn passed_on<H: Hasher, D: Data, S: Data>(
    state: DagView<HashOf<H>, D::V, S::V>,
    unit: SignedUnitView<HashOf<H>, D::V, S::V>,
) -> (DagView<HashOf<H>, D::V, S::V>, DagResultView<HashOf<H>, D::V, S::V>) {
    let hash = units::unit_hash::<H, D>(unit.signable);
    let (reconstruction, result) = parents::unit_added::<H>(
        state.reconstruction,
        UnitView { pre_unit: unit.signable.pre_unit, hash },
    );
    ordered(
        DagView { reconstruction, signed: state.signed.insert(hash, unit), ..state },
        result,
    )
}

/// Only a newly found forker gives a result, an alert.
pub open spec fn error_result<V, D, S>(error: ErrorView<V, D, S>) -> DagResultView<V, D, S> {
    match error {
        ErrorView::NewForker(alert) => DagResultView::alert(alert),
        _ => DagResultView::nothing(),
    }
}

/// The units that are returned are no longer being processed.
pub open spec fn cleaned<H: Hasher, D: Data, S: Data>(
    state: DagView<HashOf<H>, D::V, S::V>,
    units: Seq<DagUnitView<HashOf<H>, D::V, S::V>>,
) -> DagView<HashOf<H>, D::V, S::V>
    decreases units.len(),
{
    if units.len() == 0 {
        state
    } else {
        let state = cleaned::<H, D, S>(state, units.drop_last());
        DagView {
            validator: validation::finished(
                state.validator,
                units::unit_hash::<H, D>(units.last().unit.signable),
            ),
            ..state
        }
    }
}

/// A unit is checked and, if nothing speaks against it, passed on.
pub open spec fn unit_processed<H: Hasher, D: Data, K: Keychain>(
    unit_validator: &UnitValidator<K>,
    state: DagView<HashOf<H>, D::V, SignatureOf<K>>,
    store: StoreView<HashOf<H>, DagUnitView<HashOf<H>, D::V, SignatureOf<K>>>,
    unit: SignedUnitView<HashOf<H>, D::V, SignatureOf<K>>,
) -> (
    DagView<HashOf<H>, D::V, SignatureOf<K>>,
    DagResultView<HashOf<H>, D::V, SignatureOf<K>>,
) {
    let (validator, error) = validation::validated::<H, D, K>(
        unit_validator,
        state.validator,
        store,
        unit,
    );
    let state = DagView { validator, ..state };
    match error {
        None => passed_on::<H, D, K::Signature>(state, unit),
        Some(error) => (state, error_result(error)),
    }
}

/// A unit is added.
pub open spec fn unit_added<H: Hasher, D: Data, K: Keychain>(
    unit_validator: &UnitValidator<K>,
    state: DagView<HashOf<H>, D::V, SignatureOf<K>>,
    store: StoreView<HashOf<H>, DagUnitView<HashOf<H>, D::V, SignatureOf<K>>>,
    unit: SignedUnitView<HashOf<H>, D::V, SignatureOf<K>>,
) -> (
    DagView<HashOf<H>, D::V, SignatureOf<K>>,
    DagResultView<HashOf<H>, D::V, SignatureOf<K>>,
) {
    let (state, result) = unit_processed::<H, D, K>(unit_validator, state, store, unit);
    (cleaned::<H, D, K::Signature>(state, result.units), result)
}

/// How far the parents in a response have been dealt with.
#[verifier::reject_recursive_types(V)]
pub struct ParentsProgress<V, D, S> {
    pub state: DagView<V, D, S>,
    pub result: DagResultView<V, D, S>,
    pub hashes: Map<UnitCoord, V>,
    /// A parent was wrong, or showed that its creator is a forker: the rest is not looked at.
    pub stopped: bool,
}

/// The parents in a response are dealt with like other units, one after another.
pub open spec fn parents_processed<H: Hasher, D: Data, K: Keychain>(
    unit_validator: &UnitValidator<K>,
    state: DagView<HashOf<H>, D::V, SignatureOf<K>>,
    store: StoreView<HashOf<H>, DagUnitView<HashOf<H>, D::V, SignatureOf<K>>>,
    units: Seq<SignedUnitView<HashOf<H>, D::V, SignatureOf<K>>>,
) -> ParentsProgress<HashOf<H>, D::V, SignatureOf<K>>
    decreases units.len(),
{
    if units.len() == 0 {
        ParentsProgress {
            state,
            result: DagResultView::nothing(),
            hashes: Map::empty(),
            stopped: false,
        }
    } else {
        let so_far = parents_processed::<H, D, K>(unit_validator, state, store, units.drop_last());
        if so_far.stopped {
            so_far
        } else {
            let unit = units.last();
            let (validator, error) = validation::validated::<H, D, K>(
                unit_validator,
                so_far.state.validator,
                store,
                unit,
            );
            let checked = DagView { validator, ..so_far.state };
            let hashes = so_far.hashes.insert(
                unit.signable.coord(),
                units::unit_hash::<H, D>(unit.signable),
            );
            match error {
                None => {
                    let (after, more) = passed_on::<H, D, K::Signature>(checked, unit);
                    ParentsProgress {
                        state: after,
                        result: so_far.result.and(more),
                        hashes,
                        stopped: false,
                    }
                },
                Some(ErrorView::Invalid(_)) => ParentsProgress {
                    state: checked,
                    stopped: true,
                    ..so_far
                },
                Some(ErrorView::NewForker(alert)) => ParentsProgress {
                    state: checked,
                    result: so_far.result.and(DagResultView::alert(alert)),
                    stopped: true,
                    ..so_far
                },
                _ => ParentsProgress { state: checked, hashes, ..so_far },
            }
        }
    }
}

/// The explicit list of the parents of a unit, if all of them are known by their coordinates.
pub open spec fn explicit_parents<V>(
    reconstruction: ReconstructionView<V>,
    hash: V,
    hashes: Map<UnitCoord, V>,
) -> Option<Seq<V>> {
    let coords = parents::parent_coords(reconstruction.reconstructing[hash].unit());
    if {
        &&& reconstruction.reconstructing.contains_key(hash)
        &&& reconstruction.reconstructing[hash].unit().round() != 0
        &&& forall|i: int| 0 <= i < coords.len() ==> hashes.contains_key(#[trigger] coords[i])
    } {
        Some(coords.map_values(|coord: UnitCoord| hashes[coord]))
    } else {
        None
    }
}

/// The parents of a unit are added.
pub open spec fn parents_added<H: Hasher, D: Data, K: Keychain>(
    unit_validator: &UnitValidator<K>,
    state: DagView<HashOf<H>, D::V, SignatureOf<K>>,
    store: StoreView<HashOf<H>, DagUnitView<HashOf<H>, D::V, SignatureOf<K>>>,
    hash: HashOf<H>,
    units: Seq<SignedUnitView<HashOf<H>, D::V, SignatureOf<K>>>,
) -> (
    DagView<HashOf<H>, D::V, SignatureOf<K>>,
    DagResultView<HashOf<H>, D::V, SignatureOf<K>>,
) {
    let progress = parents_processed::<H, D, K>(unit_validator, state, store, units);
    if progress.stopped {
        (progress.state, progress.result)
    } else {
        let (after, more) = match explicit_parents(
            progress.state.reconstruction,
            hash,
            progress.hashes,
        ) {
            Some(list) => {
                let (reconstruction, result) = parents::parents_added::<H>(
                    progress.state.reconstruction,
                    hash,
                    list,
                );
                ordered(DagView { reconstruction, ..progress.state }, result)
            },
            None => (progress.state, DagResultView::nothing()),
        };
        let result = progress.result.and(more);
        (cleaned::<H, D, K::Signature>(after, result.units), result)
    }
}

/// Units that somebody committed to are passed on even though they are by a forker.
pub open spec fn committed_processed<H: Hasher, D: Data, K: Keychain>(
    unit_validator: &UnitValidator<K>,
    state: DagView<HashOf<H>, D::V, SignatureOf<K>>,
    store: StoreView<HashOf<H>, DagUnitView<HashOf<H>, D::V, SignatureOf<K>>>,
    units: Seq<SignedUnitView<HashOf<H>, D::V, SignatureOf<K>>>,
) -> (
    DagView<HashOf<H>, D::V, SignatureOf<K>>,
    DagResultView<HashOf<H>, D::V, SignatureOf<K>>,
)
    decreases units.len(),
{
    if units.len() == 0 {
        (state, DagResultView::nothing())
    } else {
        let (before, so_far) = committed_processed::<H, D, K>(
            unit_validator,
            state,
            store,
            units.drop_last(),
        );
        let (validator, error) = validation::committed_validated::<H, D, K>(
            unit_validator,
            before.validator,
            store,
            units.last(),
        );
        let checked = DagView { validator, ..before };
        let (after, more) = match error {
            None => passed_on::<H, D, K::Signature>(checked, units.last()),
            Some(error) => (checked, error_result(error)),
        };
        (after, so_far.and(more))
    }
}

/// A notification of the alerter is processed.
pub open spec fn notification_processed<H: Hasher, D: Data, K: Keychain>(
    unit_validator: &UnitValidator<K>,
    state: DagView<HashOf<H>, D::V, SignatureOf<K>>,
    store: StoreView<HashOf<H>, DagUnitView<HashOf<H>, D::V, SignatureOf<K>>>,
    notification: ForkingNotificationView<HashOf<H>, D::V, SignatureOf<K>>,
) -> (
    DagView<HashOf<H>, D::V, SignatureOf<K>>,
    DagResultView<HashOf<H>, D::V, SignatureOf<K>>,
) {
    let (after, result) = match notification {
        ForkingNotificationView::Forker(fork) => {
            let (middle, first) = unit_added::<H, D, K>(unit_validator, state, store, fork.0);
            let (after, second) = unit_added::<H, D, K>(unit_validator, middle, store, fork.1);
            (after, first.and(second))
        },
        ForkingNotificationView::Units(units) => committed_processed::<H, D, K>(
            unit_validator,
            state,
            store,
            units,
        ),
    };
    (cleaned::<H, D, K::Signature>(after, result.units), result)
}

/// The Dag ensuring that all units from the network get returned reconstructed in the correct order.
pub struct Dag<'a, H: Hasher, D: Data, K: Keychain> {
    validator: Validator<'a, H, D, K>,
    reconstruction: Reconstruction<H>,
    order: Order<H>,
    signed: VecMap<H::Hash, SignedUnit<H, D, K::Signature>>,
}

impl<'a, H: Hasher, D: Data, K: Keychain> DeepView for Dag<'a, H, D, K> {
    type V = DagView<HashOf<H>, D::V, SignatureOf<K>>;

    closed spec fn deep_view(&self) -> DagView<HashOf<H>, D::V, SignatureOf<K>> {
        DagView {
            validator: self.validator.deep_view(),
            reconstruction: self.reconstruction.deep_view(),
            order: self.order.deep_view(),
            signed: self.signed.deep_view(),
        }
    }
}

impl<'a, H: Hasher, D: Data, K: Keychain> Dag<'a, H, D, K> {
    /// What units are checked with on their own.
    pub closed spec fn checker(&self) -> UnitValidator<'a, K> {
        self.validator.checker()
    }

    /// All the units whose parents are being reconstructed are of the committee.
    pub open spec fn wf(&self) -> bool {
        self.deep_view().reconstruction.for_committee(self.checker().limits().n_members.0 as nat)
    }

    /// A new dag using the provided unit validator under the hood.
    pub fn new(unit_validator: UnitValidator<'a, K>) -> (result: Self)
        ensures
            result.wf(),
            result.checker() == unit_validator,
            result.deep_view() == DagView::<HashOf<H>, D::V, SignatureOf<K>>::fresh(),
    {
        Dag {
            validator: Validator::new(unit_validator),
            reconstruction: Reconstruction::new(),
            order: Order::new(),
            signed: VecMap::new(),
        }
    }

    fn handle_validation_error(error: ValidationError<H, D, K::Signature>) -> (result: DagResult<
        H,
        D,
        K::Signature,
    >)
        ensures
            result.deep_view() == error_result(error.deep_view()),
    {
        match error {
            ValidationError::Invalid(_) => DagResult::empty(),
            ValidationError::Duplicate(_) => DagResult::empty(),
            ValidationError::Uncommitted(_) => DagResult::empty(),
            ValidationError::NewForker(alert) => DagResult::alert(alert),
        }
    }

    fn reunite(&mut self, units: Vec<ReconstructedUnit<H>>) -> (result: Vec<
        DagUnit<H, D, K::Signature>,
    >)
        ensures
            final(self).checker() == old(self).checker(),
            (final(self).deep_view().signed, result.deep_view()) == reunited(
                old(self).deep_view().signed,
                units.deep_view(),
            ),
            final(self).deep_view() == (DagView {
                signed: final(self).deep_view().signed,
                ..old(self).deep_view()
            }),
    {
        let n: usize = units.len();
        let ghost all = units.deep_view();
        let ghost before = self.deep_view();
        let mut result: Vec<DagUnit<H, D, K::Signature>> = Vec::new();
        proof {
            assert(all.take(0) =~= seq![]);
            assert(result.deep_view() =~= seq![]);
        }
        for i in 0..n
            invariant
                n == units@.len(),
                all == units.deep_view(),
                self.checker() == old(self).checker(),
                (self.deep_view().signed, result.deep_view()) == reunited(
                    before.signed,
                    all.take(i as int),
                ),
                self.deep_view() == (DagView { signed: self.deep_view().signed, ..before }),
        {
            let ghost so_far = result.deep_view();
            proof {
                assert(all.take(i + 1).drop_last() =~= all.take(i as int));
            }
            if let Some(unit) = self.signed.remove(&units[i].hash()) {
                result.push(DagUnit::new(unit, units[i].parents().copy()));
                proof {
                    assert(result.deep_view() =~= so_far.push(
                        DagUnitView { unit: unit.deep_view(), parents: all[i as int].parents },
                    ));
                }
            }
        }
        proof {
            assert(all.take(n as int) =~= all);
        }
        result
    }

    fn put_into_order(&mut self, result: ReconstructionResult<H>) -> (ordered_result: DagResult<
        H,
        D,
        K::Signature,
    >)
        ensures
            final(self).checker() == old(self).checker(),
            (final(self).deep_view(), ordered_result.deep_view()) == ordered(
                old(self).deep_view(),
                result.deep_view(),
            ),
    {
        let ghost before = self.deep_view();
        let (reconstructed, requests) = result.into_parts();
        let mut placed: Vec<ReconstructedUnit<H>> = Vec::new();
        let n: usize = reconstructed.len();
        let ghost all = reconstructed.deep_view();
        proof {
            assert(all.take(0) =~= seq![]);
            assert(placed.deep_view() =~= seq![]);
        }
        for i in 0..n
            invariant
                n == reconstructed@.len(),
                all == reconstructed.deep_view(),
                self.checker() == old(self).checker(),
                (self.deep_view().order, placed.deep_view()) == order::all_added(
                    before.order,
                    all.take(i as int),
                ),
                self.deep_view() == (DagView { order: self.deep_view().order, ..before }),
        {
            let ghost so_far = placed.deep_view();
            proof {
                assert(all.take(i + 1).drop_last() =~= all.take(i as int));
            }
            let mut more: Vec<ReconstructedUnit<H>> = self.order.add_unit(reconstructed[i].copy());
            let ghost added = more.deep_view();
            placed.append(&mut more);
            proof {
                assert(placed.deep_view() =~= so_far + added);
            }
        }
        proof {
            assert(all.take(n as int) =~= all);
        }
        let units: Vec<DagUnit<H, D, K::Signature>> = self.reunite(placed);
        let ordered_result = DagResult { units, requests, alerts: Vec::new() };
        proof {
            assert(ordered_result.alerts.deep_view() =~= seq![]);
        }
        ordered_result
    }

    fn pass_on(&mut self, unit: SignedUnit<H, D, K::Signature>) -> (result: DagResult<
        H,
        D,
        K::Signature,
    >)
        requires
            old(self).wf(),
            unit.deep_view().signable.pre_unit.control_hash.parents_mask.len() == old(self).checker().limits().n_members.0,
        ensures
            final(self).wf(),
            final(self).checker() == old(self).checker(),
            (final(self).deep_view(), result.deep_view()) == passed_on::<H, D, K::Signature>(
                old(self).deep_view(),
                unit.deep_view(),
            ),
    {
        let hash: H::Hash = unit.as_signable().hash();
        let bare = unit.as_signable().unit();
        self.signed.insert(hash, unit);
        proof {
            parents::lemma_committee_waits(self.reconstruction.deep_view(), bare.deep_view());
        }
        let result: ReconstructionResult<H> = self.reconstruction.add_unit(bare);
        self.put_into_order(result)
    }

    fn handle_result(&mut self, result: &DagResult<H, D, K::Signature>)
        requires
            old(self).wf(),
        ensures
            final(self).wf(),
            final(self).checker() == old(self).checker(),
            final(self).deep_view() == cleaned::<H, D, K::Signature>(
                old(self).deep_view(),
                result.deep_view().units,
            ),
    {
        // just clean the validator cache of units that we are returning
        let n: usize = result.units.len();
        let ghost all = result.deep_view().units;
        let ghost before = self.deep_view();
        proof {
            assert(all.take(0) =~= seq![]);
        }
        for i in 0..n
            invariant
                n == result.units@.len(),
                all == result.units.deep_view(),
                self.wf(),
                self.checker() == old(self).checker(),
                self.deep_view() == cleaned::<H, D, K::Signature>(before, all.take(i as int)),
        {
            proof {
                assert(all.take(i + 1).drop_last() =~= all.take(i as int));
            }
            self.validator.finished_processing(&result.units[i].hash());
        }
        proof {
            assert(all.take(n as int) =~= all);
        }
    }

    /// Add a unit to the Dag.
    pub fn add_unit(
        &mut self,
        unit: UncheckedSignedUnit<H, D, K::Signature>,
        store: &UnitStore<DagUnit<H, D, K::Signature>>,
    ) -> (result: DagResult<H, D, K::Signature>)
        requires
            old(self).wf(),
        ensures
            final(self).wf(),
            final(self).checker() == old(self).checker(),
            (final(self).deep_view(), result.deep_view()) == unit_added::<H, D, K>(
                &old(self).checker(),
                old(self).deep_view(),
                store.deep_view(),
                unit.deep_view(),
            ),
    {
        let result: DagResult<H, D, K::Signature> = match self.validator.validate(unit, store) {
            Ok(unit) => self.pass_on(unit),
            Err(e) => Self::handle_validation_error(e),
        };
        self.handle_result(&result);
        result
    }

    fn list_parents(&self, unit_hash: &H::Hash, hashes: &VecMap<UnitCoord, H::Hash>) -> (result: Option<
        Vec<H::Hash>,
    >)
        ensures
            result.deep_view() == explicit_parents(
                self.deep_view().reconstruction,
                unit_hash.deep_view(),
                hashes.deep_view(),
            ),
    {
        let ghost map = hashes.deep_view();
        let coords: Vec<UnitCoord> = match self.reconstruction.parent_coords_of(unit_hash) {
            Some(coords) => coords,
            None => {
                return None;
            },
        };
        let n: usize = coords.len();
        let mut result: Vec<H::Hash> = Vec::new();
        let ghost expected = coords@.map_values(|coord: UnitCoord| map[coord]);
        proof {
            assert(result.deep_view() =~= expected.take(0));
        }
        for i in 0..n
            invariant
                n == coords@.len(),
                map == hashes.deep_view(),
                expected == coords@.map_values(|coord: UnitCoord| map[coord]),
                forall|j: int| 0 <= j < i ==> map.contains_key(#[trigger] coords@[j]),
                result.deep_view() == expected.take(i as int),
                coords@ == parents::parent_coords(
                    self.deep_view().reconstruction.reconstructing[unit_hash.deep_view()].unit(),
                ),
        {
            let ghost before = result.deep_view();
            match hashes.get(&coords[i]) {
                Some(hash) => {
                    result.push(hash.copy());
                    proof {
                        assert(result.deep_view() =~= before.push(expected[i as int]));
                        assert(result.deep_view() =~= expected.take(i + 1));
                    }
                },
                None => {
                    proof {
                        assert(!map.contains_key(coords@[i as int]));
                    }
                    return None;
                },
            }
        }
        proof {
            assert(expected.take(n as int) =~= expected);
        }
        Some(result)
    }

    /// Add parents of a unit to the Dag.
    pub fn add_parents(
        &mut self,
        unit_hash: &H::Hash,
        parents: Vec<UncheckedSignedUnit<H, D, K::Signature>>,
        store: &UnitStore<DagUnit<H, D, K::Signature>>,
    ) -> (result: DagResult<H, D, K::Signature>)
        requires
            old(self).wf(),
        ensures
            final(self).wf(),
            final(self).checker() == old(self).checker(),
            (final(self).deep_view(), result.deep_view()) == parents_added::<H, D, K>(
                &old(self).checker(),
                old(self).deep_view(),
                store.deep_view(),
                unit_hash.deep_view(),
                parents.deep_view(),
            ),
    {
        let ghost before = self.deep_view();
        let ghost checker = self.checker();
        let ghost all = parents.deep_view();
        let mut result: DagResult<H, D, K::Signature> = DagResult::empty();
        let mut parent_hashes: VecMap<UnitCoord, H::Hash> = VecMap::new();
        let n: usize = parents.len();
        proof {
            assert(all.take(0) =~= seq![]);
        }
        for i in 0..n
            invariant
                n == parents@.len(),
                all == parents.deep_view(),
                before == old(self).deep_view(),
                checker == old(self).checker(),
                self.wf(),
                self.checker() == checker,
                ({
                    let progress = parents_processed::<H, D, K>(
                        &checker,
                        before,
                        store.deep_view(),
                        all.take(i as int),
                    );
                    &&& !progress.stopped
                    &&& progress.state == self.deep_view()
                    &&& progress.result == result.deep_view()
                    &&& progress.hashes == parent_hashes.deep_view()
                }),
        {
            let ghost so_far = result.deep_view();
            proof {
                assert(all.take(i + 1).drop_last() =~= all.take(i as int));
                assert(all.take(i + 1).last() == parents@[i as int].deep_view());
            }
            let unit: SignedUnit<H, D, K::Signature> = match self.validator.validate(
                parents[i].copy(),
                store,
            ) {
                Ok(unit) => {
                    let more: DagResult<H, D, K::Signature> = self.pass_on(unit.copy());
                    result.accumulate(more);
                    unit
                },
                Err(ValidationError::Invalid(_)) => {
                    proof {
                        lemma_stopped::<H, D, K>(&checker, before, store.deep_view(), all, i + 1);
                    }
                    return result;
                },
                Err(ValidationError::Duplicate(unit)) => unit,
                Err(ValidationError::Uncommitted(unit)) => unit,
                Err(ValidationError::NewForker(alert)) => {
                    // technically this was a correct unit, so we could have passed it on,
                    // but this will happen at most once and we will receive the parent
                    // response again, so we just discard it now
                    result.accumulate(DagResult::alert(alert));
                    proof {
                        lemma_stopped::<H, D, K>(&checker, before, store.deep_view(), all, i + 1);
                    }
                    return result;
                },
            };
            parent_hashes.insert(unit.as_signable().coord(), unit.as_signable().hash());
        }
        proof {
            assert(all.take(n as int) =~= all);
        }
        let ghost middle = self.deep_view();
        match self.list_parents(unit_hash, &parent_hashes) {
            Some(list) => {
                let found: ReconstructionResult<H> = self.reconstruction.add_parents(
                    unit_hash,
                    list,
                );
                let more: DagResult<H, D, K::Signature> = self.put_into_order(found);
                result.accumulate(more);
            },
            None => {
                proof {
                    assert(result.deep_view().and(DagResultView::nothing()) =~= result.deep_view());
                }
            },
        }
        self.handle_result(&result);
        result
    }

    /// Process a forking notification, potentially returning a lot of unit processing results.
    pub fn process_forking_notification(
        &mut self,
        notification: ForkingNotification<H, D, K::Signature>,
        store: &UnitStore<DagUnit<H, D, K::Signature>>,
    ) -> (result: DagResult<H, D, K::Signature>)
        requires
            old(self).wf(),
        ensures
            final(self).wf(),
            final(self).checker() == old(self).checker(),
            (final(self).deep_view(), result.deep_view()) == notification_processed::<H, D, K>(
                &old(self).checker(),
                old(self).deep_view(),
                store.deep_view(),
                notification.deep_view(),
            ),
    {
        let ghost before = self.deep_view();
        let ghost checker = self.checker();
        let mut result: DagResult<H, D, K::Signature> = DagResult::empty();
        match notification {
            ForkingNotification::Forker((unit, other_unit)) => {
                // Just treat them as normal incoming units, if they are a forking proof
                // this will either trigger a new forker or we already knew about this one.
                let first: DagResult<H, D, K::Signature> = self.add_unit(unit, store);
                let ghost f = first.deep_view();
                result.accumulate(first);
                let second: DagResult<H, D, K::Signature> = self.add_unit(other_unit, store);
                result.accumulate(second);
                proof {
                    assert(DagResultView::nothing().and(f) =~= f);
                }
            },
            ForkingNotification::Units(units) => {
                let n: usize = units.len();
                let ghost all = units.deep_view();
                proof {
                    assert(all.take(0) =~= seq![]);
                }
                for i in 0..n
                    invariant
                        n == units@.len(),
                        all == units.deep_view(),
                        self.wf(),
                        self.checker() == checker,
                        (self.deep_view(), result.deep_view()) == committed_processed::<H, D, K>(
                            &checker,
                            before,
                            store.deep_view(),
                            all.take(i as int),
                        ),
                {
                    proof {
                        assert(all.take(i + 1).drop_last() =~= all.take(i as int));
                        assert(all.take(i + 1).last() == units@[i as int].deep_view());
                    }
                    let more: DagResult<H, D, K::Signature> =
                        match self.validator.validate_committed(units[i].copy(), store) {
                        Ok(unit) => self.pass_on(unit),
                        Err(e) => Self::handle_validation_error(e),
                    };
                    result.accumulate(more);
                }
                proof {
                    assert(all.take(n as int) =~= all);
                }
            },
        }
        self.handle_result(&result);
        result
    }

    /// Signals that a unit finished processing.
    pub fn finished_processing(&mut self, hash: &H::Hash)
        requires
            old(self).wf(),
        ensures
            final(self).wf(),
            final(self).checker() == old(self).checker(),
            final(self).deep_view() == (DagView {
                validator: validation::finished(old(self).deep_view().validator, hash.deep_view()),
                ..old(self).deep_view()
            }),
    {
        self.validator.finished_processing(hash);
    }

    /// The latest round of a unit that is being processed.
    pub fn top_round(&self) -> (round: Round)
        ensures
            self.deep_view().validator.processing.is_top_round(round),
    {
        self.validator.top_round()
    }
}

/// Once the parents in a response are not looked at any more, the rest of them makes no difference.
proof fn lemma_stopped<H: Hasher, D: Data, K: Keychain>(
    unit_validator: &UnitValidator<K>,
    state: DagView<HashOf<H>, D::V, SignatureOf<K>>,
    store: StoreView<HashOf<H>, DagUnitView<HashOf<H>, D::V, SignatureOf<K>>>,
    units: Seq<SignedUnitView<HashOf<H>, D::V, SignatureOf<K>>>,
    k: int,
)
    requires
        0 <= k <= units.len(),
        parents_processed::<H, D, K>(unit_validator, state, store, units.take(k)).stopped,
    ensures
        parents_processed::<H, D, K>(unit_validator, state, store, units) == parents_processed::<
            H,
            D,
            K,
        >(unit_validator, state, store, units.take(k)),
    decreases units.len() - k,
{
    if k < units.len() {
        assert(units.take(k + 1).drop_last() =~= units.take(k));
        lemma_stopped::<H, D, K>(unit_validator, state, store, units, k + 1);
    } else {
        assert(units.take(k) =~= units);
    }
}

} // verus!
