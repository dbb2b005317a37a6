//! Checking units against what is known already.
use crate::alerts::{Alert, AlertView, SignedUnitView};
use crate::collections::VecSet;
use crate::crypto::{HashOf, Hasher, Keychain, SignatureOf};
use crate::dag::unit::{DagUnit, DagUnitView};
use crate::data::Data;
use crate::nodes::{NodeIndex, Round};
use crate::units;
use crate::units::store::{StoreView, UnitStore};
use crate::units::validator::{
    ValidationError as UnitError, ValidationErrorView as UnitErrorView, Validator as UnitValidator,
};
use crate::units::{SignedUnit, UncheckedSignedUnit, UnitCoord};
use vstd::prelude::*;

verus! {

/// Why a unit is not passed on.
pub enum Error<H: Hasher, D: Data, S: Data> {
    /// Something is wrong with it.
    Invalid(UnitError<H, D, S>),
    /// It is known already.
    Duplicate(SignedUnit<H, D, S>),
    /// It is by a forker, and nobody committed to it.
    Uncommitted(SignedUnit<H, D, S>),
    /// It shows that its creator is a forker.
    NewForker(Alert<H, D, S>),
}

/// The model of the reason why a unit is not passed on.
pub enum ErrorView<V, D, S> {
    Invalid(UnitErrorView<V, D, S>),
    Duplicate(SignedUnitView<V, D, S>),
    Uncommitted(SignedUnitView<V, D, S>),
    NewForker(AlertView<V, D, S>),
}

impl<H: Hasher, D: Data, S: Data> DeepView for Error<H, D, S> {
    type V = ErrorView<HashOf<H>, D::V, S::V>;

    open spec fn deep_view(&self) -> ErrorView<HashOf<H>, D::V, S::V> {
        match self {
            Error::Invalid(e) => ErrorView::Invalid(e.deep_view()),
            Error::Duplicate(unit) => ErrorView::Duplicate(unit.deep_view()),
            Error::Uncommitted(unit) => ErrorView::Uncommitted(unit.deep_view()),
            Error::NewForker(alert) => ErrorView::NewForker(alert.deep_view()),
        }
    }
}

/// The model of a validator: the units that are being processed, and the known forkers.
#[verifier::ext_equal]
#[verifier::reject_recursive_types(V)]
pub struct ValidatorView<V, D, S> {
    pub processing: StoreView<V, SignedUnitView<V, D, S>>,
    pub forkers: Set<NodeIndex>,
}

impl<V, D, S> ValidatorView<V, D, S> {
    pub open spec fn fresh() -> Self {
        ValidatorView { processing: StoreView::fresh(), forkers: Set::empty() }
    }
}

/// The units in a store, without their parents.
pub open spec fn signed_units<V, D, S>(units: Seq<DagUnitView<V, D, S>>) -> Seq<
    SignedUnitView<V, D, S>,
> {
    units.map_values(|unit: DagUnitView<V, D, S>| unit.unit)
}

/// What is wrong with a unit or that it is known already.
pub open spec fn pre_verdict<H: Hasher, D: Data, K: Keychain>(
    unit_validator: &UnitValidator<K>,
    state: ValidatorView<HashOf<H>, D::V, SignatureOf<K>>,
    store: StoreView<HashOf<H>, DagUnitView<HashOf<H>, D::V, SignatureOf<K>>>,
    unit: SignedUnitView<HashOf<H>, D::V, SignatureOf<K>>,
) -> Option<ErrorView<HashOf<H>, D::V, SignatureOf<K>>> {
    let hash = units::unit_hash::<H, D>(unit.signable);
    match unit_validator.verdict::<H, D>(unit) {
        Some(e) => Some(ErrorView::Invalid(e)),
        None => if store.by_hash.contains_key(hash) || state.processing.by_hash.contains_key(hash) {
            Some(ErrorView::Duplicate(unit))
        } else {
            None
        },
    }
}

/// A unit that is known at some coordinate, in the store or being processed.
pub open spec fn known_at<H: Hasher, D: Data, K: Keychain>(
    state: ValidatorView<HashOf<H>, D::V, SignatureOf<K>>,
    store: StoreView<HashOf<H>, DagUnitView<HashOf<H>, D::V, SignatureOf<K>>>,
    coord: UnitCoord,
) -> Option<SignedUnitView<HashOf<H>, D::V, SignatureOf<K>>> {
    match store.canonical_unit(coord) {
        Some(unit) => Some(unit.unit),
        None => state.processing.canonical_unit(coord),
    }
}

/// The state once a unit is being processed.
pub open spec fn with_processing<H: Hasher, D: Data, K: Keychain>(
    state: ValidatorView<HashOf<H>, D::V, SignatureOf<K>>,
    unit: SignedUnitView<HashOf<H>, D::V, SignatureOf<K>>,
) -> ValidatorView<HashOf<H>, D::V, SignatureOf<K>> {
    ValidatorView {
        processing: state.processing.with_unit(
            units::unit_hash::<H, D>(unit.signable),
            unit.signable.coord(),
            unit,
        ),
        ..state
    }
}

/// A unit arrives: the state that follows and why the unit is not passed on, if it is not. Units of
/// known forkers are not; a second unit at some coordinate reveals a forker, and an alert is made
/// with both units and a commitment to the forker's units in the store.
pub open spec fn validated<H: Hasher, D: Data, K: Keychain>(
    unit_validator: &UnitValidator<K>,
    state: ValidatorView<HashOf<H>, D::V, SignatureOf<K>>,
    store: StoreView<HashOf<H>, DagUnitView<HashOf<H>, D::V, SignatureOf<K>>>,
    unit: SignedUnitView<HashOf<H>, D::V, SignatureOf<K>>,
) -> (
    ValidatorView<HashOf<H>, D::V, SignatureOf<K>>,
    Option<ErrorView<HashOf<H>, D::V, SignatureOf<K>>>,
) {
    let creator = unit.signable.creator();
    match pre_verdict::<H, D, K>(unit_validator, state, store, unit) {
        Some(e) => (state, Some(e)),
        None => if state.forkers.contains(creator) {
            (state, Some(ErrorView::Uncommitted(unit)))
        } else {
            match known_at::<H, D, K>(state, store, unit.signable.coord()) {
                Some(known) => (
                    ValidatorView { forkers: state.forkers.insert(creator), ..state },
                    Some(
                        ErrorView::NewForker(
                            AlertView {
                                sender: unit_validator.keys().node(),
                                proof_of_fork: (known, unit),
                                legit_units: signed_units(store.canonical_units(creator)),
                            },
                        ),
                    ),
                ),
                None => (with_processing::<H, D, K>(state, unit), None),
            }
        },
    }
}

/// A unit that somebody committed to arrives.
pub open spec fn committed_validated<H: Hasher, D: Data, K: Keychain>(
    unit_validator: &UnitValidator<K>,
    state: ValidatorView<HashOf<H>, D::V, SignatureOf<K>>,
    store: StoreView<HashOf<H>, DagUnitView<HashOf<H>, D::V, SignatureOf<K>>>,
    unit: SignedUnitView<HashOf<H>, D::V, SignatureOf<K>>,
) -> (
    ValidatorView<HashOf<H>, D::V, SignatureOf<K>>,
    Option<ErrorView<HashOf<H>, D::V, SignatureOf<K>>>,
) {
    match pre_verdict::<H, D, K>(unit_validator, state, store, unit) {
        Some(e) => (state, Some(e)),
        None => (with_processing::<H, D, K>(state, unit), None),
    }
}

/// The state once a unit is no longer being processed.
pub open spec fn finished<V, D, S>(state: ValidatorView<V, D, S>, hash: V) -> ValidatorView<
    V,
    D,
    S,
> {
    if state.processing.by_hash.contains_key(hash) {
        ValidatorView {
            processing: state.processing.without_unit(
                hash,
                state.processing.by_hash[hash].signable.coord(),
            ),
            ..state
        }
    } else {
        state
    }
}

/// Checks units against what is known already, and finds forkers.
pub struct Validator<'a, H: Hasher, D: Data, K: Keychain> {
    unit_validator: UnitValidator<'a, K>,
    processing_units: UnitStore<SignedUnit<H, D, K::Signature>>,
    known_forkers: VecSet<NodeIndex>,
}

impl<'a, H: Hasher, D: Data, K: Keychain> DeepView for Validator<'a, H, D, K> {
    type V = ValidatorView<HashOf<H>, D::V, SignatureOf<K>>;

    closed spec fn deep_view(&self) -> ValidatorView<HashOf<H>, D::V, SignatureOf<K>> {
        ValidatorView {
            processing: self.processing_units.deep_view(),
            forkers: self.known_forkers.deep_view(),
        }
    }
}

impl<'a, H: Hasher, D: Data, K: Keychain> Validator<'a, H, D, K> {
    /// What units are checked with on their own.
    pub closed spec fn checker(&self) -> UnitValidator<'a, K> {
        self.unit_validator
    }

    pub fn new(unit_validator: UnitValidator<'a, K>) -> (result: Self)
        ensures
            result.checker() == unit_validator,
            result.deep_view() == ValidatorView::<HashOf<H>, D::V, SignatureOf<K>>::fresh(),
    {
        Validator {
            unit_validator,
            processing_units: UnitStore::new(),
            known_forkers: VecSet::new(),
        }
    }

    pub fn is_forker(&self, node_id: NodeIndex) -> (result: bool)
        ensures
            result == self.deep_view().forkers.contains(node_id),
    {
        self.known_forkers.contains(&node_id)
    }

    fn pre_validate(
        &self,
        unit: UncheckedSignedUnit<H, D, K::Signature>,
        store: &UnitStore<DagUnit<H, D, K::Signature>>,
    ) -> (result: Result<SignedUnit<H, D, K::Signature>, Error<H, D, K::Signature>>)
        ensures
            ({
                let verdict = pre_verdict::<H, D, K>(
                    &self.checker(),
                    self.deep_view(),
                    store.deep_view(),
                    unit.deep_view(),
                );
                match result {
                    Ok(signed) => verdict is None && signed.deep_view() == unit.deep_view(),
                    Err(e) => verdict == Some(e.deep_view()),
                }
            }),
    {
        let signed: SignedUnit<H, D, K::Signature> = match self.unit_validator.validate_unit(unit) {
            Ok(signed) => signed,
            Err(e) => {
                return Err(Error::Invalid(e));
            },
        };
        let hash: H::Hash = signed.as_signable().hash();
        if store.unit(&hash).is_some() || self.processing_units.unit(&hash).is_some() {
            return Err(Error::Duplicate(signed));
        }
        Ok(signed)
    }

    fn legit_units(
        forker: NodeIndex,
        store: &UnitStore<DagUnit<H, D, K::Signature>>,
    ) -> (units: Vec<UncheckedSignedUnit<H, D, K::Signature>>)
        ensures
            units.deep_view() == signed_units(store.deep_view().canonical_units(forker)),
    {
        let stored: Vec<DagUnit<H, D, K::Signature>> = store.canonical_units(forker);
        let n: usize = stored.len();
        let mut units: Vec<UncheckedSignedUnit<H, D, K::Signature>> = Vec::new();
        let ghost expected = signed_units(stored.deep_view());
        proof {
            assert(units.deep_view() =~= expected.take(0));
        }
        for i in 0..n
            invariant
                n == stored@.len(),
                expected == signed_units(stored.deep_view()),
                units.deep_view() == expected.take(i as int),
        {
            let ghost before = units.deep_view();
            units.push(stored[i].to_unchecked());
            proof {
                assert(units.deep_view() =~= before.push(expected[i as int]));
                assert(units.deep_view() =~= expected.take(i + 1));
            }
        }
        proof {
            assert(expected.take(n as int) =~= expected);
        }
        units
    }

    /// Checks an incoming unit.
    pub fn validate(
        &mut self,
        unit: UncheckedSignedUnit<H, D, K::Signature>,
        store: &UnitStore<DagUnit<H, D, K::Signature>>,
    ) -> (result: Result<SignedUnit<H, D, K::Signature>, Error<H, D, K::Signature>>)
        ensures
            final(self).checker() == old(self).checker(),
            ({
                let (after, error) = validated::<H, D, K>(
                    &old(self).checker(),
                    old(self).deep_view(),
                    store.deep_view(),
                    unit.deep_view(),
                );
                &&& final(self).deep_view() == after
                &&& match result {
                    Ok(signed) => error is None && signed.deep_view() == unit.deep_view(),
                    Err(e) => error == Some(e.deep_view()),
                }
            }),
    {
        let signed: SignedUnit<H, D, K::Signature> = match self.pre_validate(unit, store) {
            Ok(signed) => signed,
            Err(e) => {
                return Err(e);
            },
        };
        let coord: UnitCoord = signed.as_signable().coord();
        let creator: NodeIndex = coord.creator();
        if self.is_forker(creator) {
            return Err(Error::Uncommitted(signed));
        }
        let known: Option<UncheckedSignedUnit<H, D, K::Signature>> =
            match store.canonical_unit(coord) {
            Some(unit) => Some(unit.to_unchecked()),
            None => match self.processing_units.canonical_unit(coord) {
                Some(unit) => Some(unit.copy().into_unchecked()),
                None => None,
            },
        };
        if let Some(known) = known {
            let legit_units: Vec<UncheckedSignedUnit<H, D, K::Signature>> = Self::legit_units(
                creator,
                store,
            );
            let _ = self.known_forkers.insert(creator);
            let own_id: NodeIndex = self.unit_validator.index();
            return Err(
                Error::NewForker(
                    Alert::new(own_id, (known, signed.into_unchecked()), legit_units),
                ),
            );
        }
        self.processing_units.insert(signed.copy());
        Ok(signed)
    }

    /// Checks a unit that somebody committed to.
    pub fn validate_committed(
        &mut self,
        unit: UncheckedSignedUnit<H, D, K::Signature>,
        store: &UnitStore<DagUnit<H, D, K::Signature>>,
    ) -> (result: Result<SignedUnit<H, D, K::Signature>, Error<H, D, K::Signature>>)
        ensures
            final(self).checker() == old(self).checker(),
            ({
                let (after, error) = committed_validated::<H, D, K>(
                    &old(self).checker(),
                    old(self).deep_view(),
                    store.deep_view(),
                    unit.deep_view(),
                );
                &&& final(self).deep_view() == after
                &&& match result {
                    Ok(signed) => error is None && signed.deep_view() == unit.deep_view(),
                    Err(e) => error == Some(e.deep_view()),
                }
            }),
    {
        let signed: SignedUnit<H, D, K::Signature> = match self.pre_validate(unit, store) {
            Ok(signed) => signed,
            Err(e) => {
                return Err(e);
            },
        };
        self.processing_units.insert(signed.copy());
        Ok(signed)
    }

    /// Signals that a unit finished processing and thus its copy no longer has to be kept for fork
    /// detection.
    pub fn finished_processing(&mut self, hash: &H::Hash)
        ensures
            final(self).checker() == old(self).checker(),
            final(self).deep_view() == finished(old(self).deep_view(), hash.deep_view()),
    {
        self.processing_units.remove(hash);
    }

    /// The latest round of a unit that is being processed.
    pub fn top_round(&self) -> (round: Round)
        ensures
            self.deep_view().processing.is_top_round(round),
    {
        self.processing_units.top_round()
    }
}

/// A unit is passed on at most once while it is being processed.
pub proof fn law_passed_on_once<H: Hasher, D: Data, K: Keychain>(
    unit_validator: &UnitValidator<K>,
    state: ValidatorView<HashOf<H>, D::V, SignatureOf<K>>,
    store: StoreView<HashOf<H>, DagUnitView<HashOf<H>, D::V, SignatureOf<K>>>,
    unit: SignedUnitView<HashOf<H>, D::V, SignatureOf<K>>,
)
    requires
        validated::<H, D, K>(unit_validator, state, store, unit).1 is None,
    ensures
        ({
            let after = validated::<H, D, K>(unit_validator, state, store, unit).0;
            validated::<H, D, K>(unit_validator, after, store, unit) == (
                after,
                Some(
                    ErrorView::<HashOf<H>, D::V, SignatureOf<K>>::Duplicate(unit),
                ),
            )
        }),
{
}

/// An alert is made at most once for each forker.
pub proof fn law_one_alert_per_forker<H: Hasher, D: Data, K: Keychain>(
    unit_validator: &UnitValidator<K>,
    state: ValidatorView<HashOf<H>, D::V, SignatureOf<K>>,
    store: StoreView<HashOf<H>, DagUnitView<HashOf<H>, D::V, SignatureOf<K>>>,
    unit: SignedUnitView<HashOf<H>, D::V, SignatureOf<K>>,
)
    ensures
        validated::<H, D, K>(unit_validator, state, store, unit).1 matches Some(
            ErrorView::NewForker(alert),
        ) ==> !state.forkers.contains(unit.signable.creator()) && validated::<H, D, K>(
            unit_validator,
            state,
            store,
            unit,
        ).0.forkers.contains(unit.signable.creator()),
{
}

/// What becomes of a unit that arrives depends on four questions alone: whether it is valid on its
/// own, whether it is in the store or being processed, whether its creator is a known forker, and
/// whether another unit is known at its coordinates. A valid unit for which the answer to the other
/// questions is no is passed on; otherwise the first yes gives the reason why it is not. Only a
/// second unit at some coordinates reveals a forker, and the alert then shows both units and
/// commits to what the store has of the forker.
pub proof fn law_why_not_passed_on<H: Hasher, D: Data, K: Keychain>(
    unit_validator: &UnitValidator<K>,
    state: ValidatorView<HashOf<H>, D::V, SignatureOf<K>>,
    store: StoreView<HashOf<H>, DagUnitView<HashOf<H>, D::V, SignatureOf<K>>>,
    unit: SignedUnitView<HashOf<H>, D::V, SignatureOf<K>>,
)
    ensures
        ({
            let (after, error) = validated::<H, D, K>(unit_validator, state, store, unit);
            let hash = units::unit_hash::<H, D>(unit.signable);
            let coord = unit.signable.pre_unit.coord;
            let valid = unit_validator.verdict::<H, D>(unit) is None;
            let known = store.by_hash.contains_key(hash) || state.processing.by_hash.contains_key(
                hash,
            );
            let forker = state.forkers.contains(coord.creator);
            let stored = store.canonical.contains_key(coord) && store.by_hash.contains_key(
                store.canonical[coord],
            );
            let in_process = state.processing.canonical.contains_key(coord)
                && state.processing.by_hash.contains_key(state.processing.canonical[coord]);
            &&& error is None <==> valid && !known && !forker && !stored && !in_process
            &&& !valid <==> error is Some && error->0 is Invalid
            &&& valid && known <==> error == Some(
                ErrorView::<HashOf<H>, D::V, SignatureOf<K>>::Duplicate(unit),
            )
            &&& valid && !known && forker <==> error == Some(
                ErrorView::<HashOf<H>, D::V, SignatureOf<K>>::Uncommitted(unit),
            )
            &&& valid && !known && !forker && (stored || in_process)
                <==> error is Some && error->0 is NewForker
            &&& error matches Some(ErrorView::NewForker(alert)) ==> {
                &&& alert.sender == unit_validator.keys().node()
                &&& alert.proof_of_fork.1 == unit
                &&& stored ==> alert.proof_of_fork.0 == store.by_hash[store.canonical[coord]].unit
                &&& !stored ==> alert.proof_of_fork.0
                    == state.processing.by_hash[state.processing.canonical[coord]]
                &&& alert.legit_units.len() == store.canonical_units(coord.creator).len()
                &&& forall|k: int|
                    0 <= k < alert.legit_units.len() ==> #[trigger] alert.legit_units[k]
                        == store.canonical_units(coord.creator)[k].unit
                &&& after.forkers == state.forkers.insert(coord.creator)
                &&& after.processing == state.processing
            }
            &&& error is None ==> {
                &&& after.forkers == state.forkers
                &&& after.processing.by_hash == state.processing.by_hash.insert(hash, unit)
                &&& after.processing.canonical.contains_key(coord)
                &&& forall|other: UnitCoord|
                    other != coord ==> (#[trigger] after.processing.canonical.contains_key(other)
                        == state.processing.canonical.contains_key(other)) && (
                    state.processing.canonical.contains_key(other)
                        ==> after.processing.canonical[other] == state.processing.canonical[other])
            }
            &&& error is Some && !(error->0 is NewForker) ==> after == state
        }),
{
}

/// A unit that somebody committed to is passed on if it is valid and not known already, even if its
/// creator is a known forker or another unit is known at its coordinates.
pub proof fn law_committed_passed_on<H: Hasher, D: Data, K: Keychain>(
    unit_validator: &UnitValidator<K>,
    state: ValidatorView<HashOf<H>, D::V, SignatureOf<K>>,
    store: StoreView<HashOf<H>, DagUnitView<HashOf<H>, D::V, SignatureOf<K>>>,
    unit: SignedUnitView<HashOf<H>, D::V, SignatureOf<K>>,
)
    ensures
        ({
            let (after, error) = committed_validated::<H, D, K>(
                unit_validator,
                state,
                store,
                unit,
            );
            let hash = units::unit_hash::<H, D>(unit.signable);
            let valid = unit_validator.verdict::<H, D>(unit) is None;
            let known = store.by_hash.contains_key(hash) || state.processing.by_hash.contains_key(
                hash,
            );
            &&& error is None <==> valid && !known
            &&& !valid <==> error is Some && error->0 is Invalid
            &&& valid && known <==> error == Some(
                ErrorView::<HashOf<H>, D::V, SignatureOf<K>>::Duplicate(unit),
            )
            &&& after.forkers == state.forkers
            &&& error is None ==> after.processing.by_hash == state.processing.by_hash.insert(
                hash,
                unit,
            ) && after.processing.canonical.contains_key(unit.signable.pre_unit.coord)
            &&& error is Some ==> after == state
        }),
{
}

/// A unit that finished processing is no longer known here; all the others still are, and so are the
/// forkers.
pub proof fn law_finished_forgotten<V, D, S>(state: ValidatorView<V, D, S>, hash: V)
    ensures
        ({
            let after = finished(state, hash);
            let coord = state.processing.by_hash[hash].signable.pre_unit.coord;
            &&& after.forkers == state.forkers
            &&& after.processing.by_hash =~= state.processing.by_hash.remove(hash)
            &&& forall|other: UnitCoord| #[trigger]
                after.processing.canonical.contains_key(other)
                    <==> state.processing.canonical.contains_key(other) && !(
                state.processing.by_hash.contains_key(hash) && other == coord
                    && state.processing.canonical[other] == hash)
            &&& forall|other: UnitCoord| #[trigger]
                after.processing.canonical.contains_key(other)
                    ==> after.processing.canonical[other] == state.processing.canonical[other]
        }),
{
}

} // verus!
