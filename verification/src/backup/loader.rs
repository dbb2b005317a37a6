//! Loads units from a backup, going through all that happened to them once more.
use crate::alerts::{AlertView, SignedUnitView};
use crate::codec_error;
use crate::codec_error::CodecError;
use crate::creation::creator::{Creator, CreatorView};
use crate::crypto::{HashOf, Hasher, Keychain, SignatureOf};
use crate::dag;
use crate::dag::unit::{DagUnit, DagUnitView};
use crate::dag::DagResultView;
use crate::data;
use crate::data::{decode_all, Data, Encoding};
use crate::nodes::{NodeIndex, Round};
use crate::reconstruction::parents::RequestView as ReconstructionRequestView;
use crate::runway;
use crate::runway::{Action, ActionView, Runway, RunwayView};
use crate::scale;
use crate::text;
use crate::text::append_decimal;
use crate::units;
use crate::units::validator::Validator as UnitValidator;
use crate::units::{FullUnit, UncheckedSignedUnit, UnitView};
use vstd::prelude::*;
use vstd::string::StringExecFns;

verus! {

/// Backup read error. Could be either caused by an io error, which comes with a description, or by
/// decoding.
pub enum LoaderError {
    IORead(String),
    IOWrite(String),
    Codec(CodecError),
    AlertsUnimplemented,
    ReconstructionFailure(usize, usize),
}

/// The message of an error.
pub open spec fn error_text(error: LoaderError) -> Seq<char> {
    match error {
        LoaderError::IORead(err) => "received IO error while reading from backup source: "@ + err@,
        LoaderError::IOWrite(err) => "received IO error while writing to new backup: "@ + err@,
        LoaderError::Codec(err) => {
            "received Codec error while decoding backup: "@ + codec_error::lines(err@, 0)
        },
        LoaderError::AlertsUnimplemented => {
            "attempted to load backup with forks, this is not yet implemented"@
        },
        LoaderError::ReconstructionFailure(expected, reconstructed) => {
            "there were "@ + text::decimal(expected as nat) + " units saved, but only "@
                + text::decimal(reconstructed as nat) + " got reconstructed"@
        },
    }
}

impl LoaderError {
    /// The message of the error.
    pub fn text(&self) -> (out: String)
        ensures
            out@ == error_text(*self),
    {
        let mut out: String = String::new();
        match self {
            LoaderError::IORead(err) => {
                out.append("received IO error while reading from backup source: ");
                out.append(err.as_str());
            },
            LoaderError::IOWrite(err) => {
                out.append("received IO error while writing to new backup: ");
                out.append(err.as_str());
            },
            LoaderError::Codec(err) => {
                out.append("received Codec error while decoding backup: ");
                out.append(err.text().as_str());
            },
            LoaderError::AlertsUnimplemented => {
                out.append("attempted to load backup with forks, this is not yet implemented");
            },
            LoaderError::ReconstructionFailure(expected, reconstructed) => {
                out.append("there were ");
                append_decimal(&mut out, *expected as u64);
                out.append(" units saved, but only ");
                append_decimal(&mut out, *reconstructed as u64);
                out.append(" got reconstructed");
            },
        }
        proof {
            assert(out@ =~= error_text(*self));
        }
        out
    }
}

/// The units that the actions say to save, in order.
pub open spec fn to_save<V, D, S>(actions: Seq<ActionView<V, D, S>>) -> Seq<DagUnitView<V, D, S>>
    decreases actions.len(),
{
    if actions.len() == 0 {
        seq![]
    } else {
        let before = to_save(actions.drop_last());
        match actions.last() {
            ActionView::Save(unit) => before.push(unit),
            _ => before,
        }
    }
}

/// Whether some of the actions raises an alert.
pub open spec fn raises_alert<V, D, S>(actions: Seq<ActionView<V, D, S>>) -> bool {
    exists|i: int| 0 <= i < actions.len() && #[trigger] actions[i] is Alert
}

/// How far a backup has been loaded.
#[verifier::ext_equal]
#[verifier::reject_recursive_types(V)]
pub struct LoadingView<V, D, S> {
    pub runway: RunwayView<V, D, S>,
    pub creator: CreatorView<V>,
    pub saved: Seq<SignedUnitView<V, D, S>>,
    pub starting_round: Round,
}

/// A unit goes to the new backup, to the creator and to the rest; after a unit of our own we go on
/// from the next round.
pub open spec fn unit_loaded<H: Hasher, D: Data, S: Data>(
    own_id: NodeIndex,
    state: LoadingView<HashOf<H>, D::V, S::V>,
    unit: DagUnitView<HashOf<H>, D::V, S::V>,
) -> LoadingView<HashOf<H>, D::V, S::V> {
    let full_unit = unit.unit.signable;
    LoadingView {
        runway: runway::unit_saved::<H, D, S>(own_id, state.runway, unit).0,
        creator: state.creator.with_unit(
            UnitView {
                pre_unit: full_unit.pre_unit,
                hash: units::unit_hash::<H, D>(full_unit),
            },
        ),
        saved: state.saved.push(unit.unit),
        starting_round: if full_unit.creator() == own_id {
            (full_unit.round() + 1) as Round
        } else {
            state.starting_round
        },
    }
}

/// Units are loaded one after another.
pub open spec fn units_loaded<H: Hasher, D: Data, S: Data>(
    own_id: NodeIndex,
    state: LoadingView<HashOf<H>, D::V, S::V>,
    units: Seq<DagUnitView<HashOf<H>, D::V, S::V>>,
) -> LoadingView<HashOf<H>, D::V, S::V>
    decreases units.len(),
{
    if units.len() == 0 {
        state
    } else {
        unit_loaded::<H, D, S>(
            own_id,
            units_loaded::<H, D, S>(own_id, state, units.drop_last()),
            units.last(),
        )
    }
}

/// A unit of the backup is dealt with; says whether there was no need for an alert.
pub open spec fn unit_processed<H: Hasher, D: Data, K: Keychain>(
    checker: &UnitValidator<K>,
    own_id: NodeIndex,
    state: LoadingView<HashOf<H>, D::V, SignatureOf<K>>,
    unit: SignedUnitView<HashOf<H>, D::V, SignatureOf<K>>,
) -> (LoadingView<HashOf<H>, D::V, SignatureOf<K>>, bool) {
    let (after, actions) = runway::unit_received::<H, D, K>(checker, state.runway, unit);
    let state = LoadingView { runway: after, ..state };
    if raises_alert(actions) {
        (state, false)
    } else {
        (units_loaded::<H, D, K::Signature>(own_id, state, to_save(actions)), true)
    }
}

/// The units of the backup are dealt with one after another, up to the first need for an alert.
pub open spec fn all_processed<H: Hasher, D: Data, K: Keychain>(
    checker: &UnitValidator<K>,
    own_id: NodeIndex,
    state: LoadingView<HashOf<H>, D::V, SignatureOf<K>>,
    units: Seq<SignedUnitView<HashOf<H>, D::V, SignatureOf<K>>>,
) -> (LoadingView<HashOf<H>, D::V, SignatureOf<K>>, bool)
    decreases units.len(),
{
    if units.len() == 0 {
        (state, true)
    } else {
        let (before, ok) = all_processed::<H, D, K>(checker, own_id, state, units.drop_last());
        if ok {
            unit_processed::<H, D, K>(checker, own_id, before, units.last())
        } else {
            (before, false)
        }
    }
}

/// The state that resulted from reading the backup.
pub struct BackupResult<'a, H: Hasher, D: Data, K: Keychain> {
    pub runway: Runway<'a, H, D, K>,
    pub creator: Creator<H>,
    pub starting_round: Round,
}

/// What comes of a backup with these units: the units for the new backup and the result.
pub open spec fn outcome<'a, H: Hasher, D: Data, K: Keychain>(
    checker: &UnitValidator<K>,
    own_id: NodeIndex,
    start: LoadingView<HashOf<H>, D::V, SignatureOf<K>>,
    units: Seq<SignedUnitView<HashOf<H>, D::V, SignatureOf<K>>>,
    saved: Seq<SignedUnitView<HashOf<H>, D::V, SignatureOf<K>>>,
    result: Result<BackupResult<'a, H, D, K>, LoaderError>,
) -> bool {
    let (state, ok) = all_processed::<H, D, K>(checker, own_id, start, units);
    let in_dag = state.runway.store.by_hash.dom().len();
    &&& saved == state.saved
    &&& match result {
        Ok(loaded) => {
            &&& ok
            &&& units.len() == in_dag
            &&& loaded.runway.deep_view() == state.runway
            &&& loaded.creator.deep_view() == state.creator
            &&& loaded.starting_round == state.starting_round
        },
        Err(LoaderError::AlertsUnimplemented) => !ok,
        Err(LoaderError::ReconstructionFailure(expected, reconstructed)) => {
            &&& ok
            &&& units.len() != in_dag
            &&& expected == units.len()
            &&& reconstructed == in_dag
        },
        Err(_) => false,
    }
}

proof fn lemma_requests_neutral<V, D, S>(
    state: RunwayView<V, D, S>,
    requests: Seq<ReconstructionRequestView<V>>,
)
    ensures
        ({
            let actions = runway::all_requested(state, requests).1;
            &&& forall|i: int| 0 <= i < actions.len() ==> #[trigger] actions[i] is Notify
            &&& runway::all_requested(state, requests).0.dag == state.dag
        }),
    decreases requests.len(),
{
    if requests.len() > 0 {
        lemma_requests_neutral(state, requests.drop_last());
        let (before, first) = runway::all_requested(state, requests.drop_last());
        let second = runway::requested(before, requests.last()).1;
        let actions = runway::all_requested(state, requests).1;
        assert(actions == first + second);
        assert forall|i: int| 0 <= i < actions.len() implies #[trigger] actions[i] is Notify by {
            if i < first.len() {
                assert(actions[i] == first[i]);
            } else {
                assert(actions[i] == second[i - first.len()]);
            }
        }
    }
}

/// Actions that save nothing make no difference to what is saved.
proof fn lemma_nothing_to_save<V, D, S>(
    actions: Seq<ActionView<V, D, S>>,
    more: Seq<ActionView<V, D, S>>,
)
    requires
        forall|i: int| 0 <= i < more.len() ==> !(#[trigger] more[i] is Save),
    ensures
        to_save(actions + more) == to_save(actions),
    decreases more.len(),
{
    if more.len() == 0 {
        assert(actions + more =~= actions);
    } else {
        assert((actions + more).drop_last() =~= actions + more.drop_last());
        assert(!(more[more.len() - 1] is Save));
        lemma_nothing_to_save(actions, more.drop_last());
    }
}

/// All that is saved is saved.
proof fn lemma_all_to_save<V, D, S>(units: Seq<DagUnitView<V, D, S>>)
    ensures
        to_save(units.map_values(|unit: DagUnitView<V, D, S>| ActionView::Save(unit))) == units,
    decreases units.len(),
{
    let save = |unit: DagUnitView<V, D, S>| ActionView::Save(unit);
    if units.len() > 0 {
        lemma_all_to_save(units.drop_last());
        assert(units.map_values(save).drop_last() =~= units.drop_last().map_values(save));
        assert(units =~= units.drop_last().push(units.last()));
    } else {
        assert(to_save(units.map_values(save)) =~= units);
    }
}

/// What comes out of the dag is what is to be saved.
proof fn lemma_result_saved<V, D, S>(state: RunwayView<V, D, S>, result: DagResultView<V, D, S>)
    ensures
        to_save(runway::result_handled(state, result).1) == result.units,
        runway::result_handled(state, result).0.dag == state.dag,
{
    let requests = runway::all_requested(state, result.requests).1;
    lemma_requests_neutral(state, result.requests);
    let saves = result.units.map_values(|unit: DagUnitView<V, D, S>| ActionView::Save(unit));
    let alerts = result.alerts.map_values(
        |alert: AlertView<V, D, S>| ActionView::<V, D, S>::Alert(alert),
    );
    lemma_all_to_save(result.units);
    lemma_nothing_to_save(saves, requests);
    lemma_nothing_to_save(saves + requests, alerts);
}

/// A unit that passes the checks and, if it is ours, is not of the last possible round.
pub open spec fn loadable<H: Hasher, D: Data, K: Keychain>(
    checker: &UnitValidator<K>,
    own_id: NodeIndex,
    unit: SignedUnitView<HashOf<H>, D::V, SignatureOf<K>>,
) -> bool {
    &&& checker.verdict::<H, D>(unit) is None
    &&& unit.signable.creator() == own_id ==> unit.signable.round() < Round::MAX
}

/// Loading keeps the dag free of units that cannot be loaded, and only units that can are loaded.
proof fn lemma_loadable_units<H: Hasher, D: Data, K: Keychain>(
    checker: &UnitValidator<K>,
    own_id: NodeIndex,
    state: RunwayView<HashOf<H>, D::V, SignatureOf<K>>,
    unit: SignedUnitView<HashOf<H>, D::V, SignatureOf<K>>,
)
    requires
        all_loadable::<H, D, K>(checker, own_id, state.dag.signed),
        checker.verdict::<H, D>(unit) is None ==> loadable::<H, D, K>(checker, own_id, unit),
    ensures
        ({
            let (after, actions) = runway::unit_received::<H, D, K>(checker, state, unit);
            let units = to_save(actions);
            &&& all_loadable::<H, D, K>(checker, own_id, after.dag.signed)
            &&& forall|k: int|
                0 <= k < units.len() ==> loadable::<H, D, K>(
                    checker,
                    own_id,
                    (#[trigger] units[k]).unit,
                )
        }),
{
    let (dag, result) = dag::unit_added::<H, D, K>(checker, state.dag, state.store, unit);
    let good = Set::new(
        |unit: SignedUnitView<HashOf<H>, D::V, SignatureOf<K>>|
            loadable::<H, D, K>(checker, own_id, unit),
    );
    dag::laws::lemma_unit_added_from::<H, D, K>(checker, state.dag, state.store, unit, good);
    lemma_result_saved(RunwayView { dag, ..state }, result);
    assert forall|hash: HashOf<H>| #[trigger] dag.signed.contains_key(hash) implies loadable::<
        H,
        D,
        K,
    >(checker, own_id, dag.signed[hash]) by {
        assert(good.contains(dag.signed[hash]));
    }
    assert forall|k: int| 0 <= k < result.units.len() implies loadable::<H, D, K>(
        checker,
        own_id,
        (#[trigger] result.units[k]).unit,
    ) by {
        assert(good.contains(result.units[k].unit));
    }
}

/// All the signed units that are kept can be loaded.
pub open spec fn all_loadable<H: Hasher, D: Data, K: Keychain>(
    checker: &UnitValidator<K>,
    own_id: NodeIndex,
    signed: Map<HashOf<H>, SignedUnitView<HashOf<H>, D::V, SignatureOf<K>>>,
) -> bool {
    forall|hash: HashOf<H>| #[trigger]
        signed.contains_key(hash) ==> loadable::<H, D, K>(checker, own_id, signed[hash])
}

/// None of our units in a backup that pass the checks is of the last possible round, after which
/// there would be no round to go on in.
pub open spec fn leaves_a_round<H: Hasher, D: Data, K: Keychain>(
    checker: &UnitValidator<K>,
    own_id: NodeIndex,
    units: Seq<SignedUnitView<HashOf<H>, D::V, SignatureOf<K>>>,
) -> bool {
    forall|i: int|
        0 <= i < units.len() ==> (checker.verdict::<H, D>(#[trigger] units[i]) is None
            ==> loadable::<H, D, K>(checker, own_id, units[i]))
}

/// Units that can be saved.
pub open spec fn savable<H: Hasher, D: Data, S: Data>(
    units: Seq<SignedUnitView<HashOf<H>, D::V, S::V>>,
) -> bool {
    forall|i: int|
        0 <= i < units.len() ==> #[trigger] UncheckedSignedUnit::<H, D, S>::valid(units[i])
}

proof fn lemma_savable<H: Hasher, D: Data, S: Data>(units: Vec<UncheckedSignedUnit<H, D, S>>)
    ensures
        savable::<H, D, S>(units.deep_view()),
{
    let all = units.deep_view();
    assert forall|i: int| 0 <= i < all.len() implies #[trigger] UncheckedSignedUnit::<
        H,
        D,
        S,
    >::valid(all[i]) by {
        units@[i].lemma_valid();
    }
}

/// No unit has an empty encoding.
proof fn lemma_unit_len<H: Hasher, D: Data, S: Data>()
    ensures
        forall|v: SignedUnitView<HashOf<H>, D::V, S::V>|
            UncheckedSignedUnit::<H, D, S>::valid(v) ==> #[trigger] UncheckedSignedUnit::<
                H,
                D,
                S,
            >::encoded(v).len() > 0,
{
    assert forall|v: SignedUnitView<HashOf<H>, D::V, S::V>|
        UncheckedSignedUnit::<H, D, S>::valid(v) implies #[trigger] UncheckedSignedUnit::<
        H,
        D,
        S,
    >::encoded(v).len() > 0 by {
        scale::lemma_le_bytes_len(v.signable.session_id as nat, 8);
        assert(u64::encoded(v.signable.session_id).len() == 8);
    }
}

/// Whether some of the actions raises an alert.
fn has_alert<H: Hasher, D: Data, S: Data>(actions: &Vec<Action<H, D, S>>) -> (result: bool)
    ensures
        result == raises_alert(actions.deep_view()),
{
    let ghost all = actions.deep_view();
    let n: usize = actions.len();
    for i in 0..n
        invariant
            n == actions@.len(),
            all == actions.deep_view(),
            forall|j: int| 0 <= j < i ==> !(#[trigger] all[j] is Alert),
    {
        proof {
            assert(all[i as int] == actions@[i as int].deep_view());
        }
        if let Action::Alert(_) = &actions[i] {
            proof {
                assert(all[i as int] is Alert);
            }
            return true;
        }
    }
    false
}

/// Loads units from backup simulating how they would be processed during normal operation.
/// NOTE: currently does not support forks and alerts.
pub struct BackupLoader<'a, H: Hasher, D: Data, K: Keychain> {
    runway: Runway<'a, H, D, K>,
    creator: Creator<H>,
    saved: Vec<UncheckedSignedUnit<H, D, K::Signature>>,
    starting_round: Round,
}

impl<'a, H: Hasher, D: Data, K: Keychain> DeepView for BackupLoader<'a, H, D, K> {
    type V = LoadingView<HashOf<H>, D::V, SignatureOf<K>>;

    closed spec fn deep_view(&self) -> LoadingView<HashOf<H>, D::V, SignatureOf<K>> {
        LoadingView {
            runway: self.runway.deep_view(),
            creator: self.creator.deep_view(),
            saved: self.saved.deep_view(),
            starting_round: self.starting_round,
        }
    }
}

/// Whether the components fit together: the creator is of the committee that units are checked
/// for, and the dag holds only units that can be loaded.
pub open spec fn fit<H: Hasher, D: Data, K: Keychain>(
    runway: Runway<H, D, K>,
    creator: Creator<H>,
) -> bool {
    &&& runway.wf()
    &&& creator.wf()
    &&& creator.deep_view().n_members == runway.checker().limits().n_members
    &&& all_loadable::<H, D, K>(
        &runway.checker(),
        runway.owner(),
        runway.deep_view().dag.signed,
    )
}

impl<'a, H: Hasher, D: Data, K: Keychain> BackupLoader<'a, H, D, K> {
    /// What units are checked with on their own.
    pub closed spec fn checker(&self) -> UnitValidator<'a, K> {
        self.runway.checker()
    }

    /// Whose backup this is.
    pub closed spec fn owner(&self) -> NodeIndex {
        self.runway.owner()
    }

    /// The components fit together.
    pub closed spec fn wf(&self) -> bool {
        fit::<H, D, K>(self.runway, self.creator)
    }

    /// There is a round to go on in after the units of ours in a backup.
    pub open spec fn admits(&self, bytes: Seq<u8>) -> bool {
        forall|units: Seq<SignedUnitView<HashOf<H>, D::V, SignatureOf<K>>>|
            savable::<H, D, K::Signature>(units) && #[trigger] data::encoded_items::<
                UncheckedSignedUnit<H, D, K::Signature>,
            >(units) == bytes ==> leaves_a_round::<H, D, K>(
                &self.checker(),
                self.owner(),
                units,
            )
    }

    /// Create a new backup loader, which will apply all changes to the provided components.
    pub fn new(runway: Runway<'a, H, D, K>, creator: Creator<H>) -> (result: Self)
        requires
            fit::<H, D, K>(runway, creator),
        ensures
            result.wf(),
            result.checker() == runway.checker(),
            result.owner() == runway.owner(),
            result.deep_view() == (LoadingView {
                runway: runway.deep_view(),
                creator: creator.deep_view(),
                saved: seq![],
                starting_round: 0,
            }),
    {
        let saved: Vec<UncheckedSignedUnit<H, D, K::Signature>> = Vec::new();
        proof {
            assert(saved.deep_view() =~= seq![]);
        }
        BackupLoader { runway, creator, saved, starting_round: 0 }
    }

    /// Saves a unit and goes through what happens then.
    fn load_unit(&mut self, unit: DagUnit<H, D, K::Signature>)
        requires
            old(self).wf(),
            loadable::<H, D, K>(&old(self).checker(), old(self).owner(), unit.deep_view().unit),
        ensures
            final(self).wf(),
            final(self).checker() == old(self).checker(),
            final(self).owner() == old(self).owner(),
            final(self).deep_view() == unit_loaded::<H, D, K::Signature>(
                old(self).owner(),
                old(self).deep_view(),
                unit.deep_view(),
            ),
    {
        let ghost before = self.deep_view();
        let ghost view = unit.deep_view();
        self.saved.push(unit.to_unchecked());
        self.creator.add_unit(&unit.unit());
        let round: Round = unit.round();
        if unit.creator() == self.runway.index() {
            // this was our unit, update the starting round
            self.starting_round = round + 1;
        }
        let _ = self.runway.on_unit_backup_saved(unit);
        proof {
            assert(self.saved.deep_view() =~= before.saved.push(view.unit));
        }
    }

    /// Deals with a unit of the backup.
    fn process_unit(&mut self, unit: UncheckedSignedUnit<H, D, K::Signature>) -> (ok: bool)
        requires
            old(self).wf(),
            old(self).checker().verdict::<H, D>(unit.deep_view()) is None ==> loadable::<H, D, K>(
                &old(self).checker(),
                old(self).owner(),
                unit.deep_view(),
            ),
        ensures
            final(self).wf(),
            final(self).checker() == old(self).checker(),
            final(self).owner() == old(self).owner(),
            (final(self).deep_view(), ok) == unit_processed::<H, D, K>(
                &old(self).checker(),
                old(self).owner(),
                old(self).deep_view(),
                unit.deep_view(),
            ),
    {
        let ghost before = self.deep_view();
        let ghost owner = self.owner();
        let ghost checker = self.checker();
        let ghost view = unit.deep_view();
        let actions: Vec<Action<H, D, K::Signature>> = self.runway.on_unit_received(unit);
        let ghost all = actions.deep_view();
        let ghost received = self.deep_view();
        proof {
            lemma_loadable_units::<H, D, K>(&checker, owner, before.runway, view);
            assert(all == runway::unit_received::<H, D, K>(&checker, before.runway, view).1);
            assert forall|k: int| 0 <= k < to_save(all).len() implies loadable::<H, D, K>(
                &checker,
                owner,
                (#[trigger] to_save(all)[k]).unit,
            ) by {}
        }
        if has_alert(&actions) {
            return false;
        }
        let n: usize = actions.len();
        proof {
            assert(all.take(0) =~= seq![]);
        }
        for i in 0..n
            invariant
                n == actions@.len(),
                all == actions.deep_view(),
                self.wf(),
                self.checker() == checker,
                self.owner() == owner,
                checker == old(self).checker(),
                owner == old(self).owner(),
                forall|k: int|
                    0 <= k < to_save(all).len() ==> loadable::<H, D, K>(
                        &checker,
                        owner,
                        (#[trigger] to_save(all)[k]).unit,
                    ),
                self.deep_view() == units_loaded::<H, D, K::Signature>(
                    owner,
                    received,
                    to_save(all.take(i as int)),
                ),
        {
            proof {
                assert(all.take(i + 1).drop_last() =~= all.take(i as int));
                assert(all.take(i + 1).last() == actions@[i as int].deep_view());
                lemma_prefix_saved(all, i + 1);
            }
            if let Action::Save(unit) = &actions[i] {
                let ghost so_far = to_save(all.take(i as int));
                proof {
                    assert(to_save(all.take(i + 1)) == so_far.push(unit.deep_view()));
                    assert(to_save(all).subrange(0, (so_far.len() + 1) as int)[so_far.len() as int]
                        == unit.deep_view());
                    assert(to_save(all)[so_far.len() as int] == unit.deep_view());
                    assert(so_far.push(unit.deep_view()).drop_last() =~= so_far);
                }
                self.load_unit(unit.copy());
            }
        }
        proof {
            assert(all.take(n as int) =~= all);
        }
        true
    }

    /// Whether all our units in a backup leave a round to go on in. Such a backup can be loaded.
    pub fn has_rounds_left(&self, bytes: &Vec<u8>) -> (result: bool)
        ensures
            result == (forall|units: Seq<SignedUnitView<HashOf<H>, D::V, SignatureOf<K>>>|
                savable::<H, D, K::Signature>(units) && #[trigger] data::encoded_items::<
                    UncheckedSignedUnit<H, D, K::Signature>,
                >(units) == bytes@ ==> forall|i: int|
                    0 <= i < units.len() && (#[trigger] units[i]).signable.creator() == self.owner()
                        ==> units[i].signable.round() < Round::MAX),
            result ==> self.admits(bytes@),
    {
        proof {
            lemma_unit_len::<H, D, K::Signature>();
        }
        let units: Vec<UncheckedSignedUnit<H, D, K::Signature>> = match decode_all(bytes) {
            Ok(units) => units,
            Err(_) => {
                return true;
            },
        };
        let ghost all = units.deep_view();
        proof {
            lemma_savable::<H, D, K::Signature>(units);
            assert forall|others: Seq<SignedUnitView<HashOf<H>, D::V, SignatureOf<K>>>|
                savable::<H, D, K::Signature>(others) && #[trigger] data::encoded_items::<
                    UncheckedSignedUnit<H, D, K::Signature>,
                >(others) == bytes@ implies others == all by {
                data::lemma_items_injective::<UncheckedSignedUnit<H, D, K::Signature>>(
                    others,
                    all,
                );
            }
        }
        let n: usize = units.len();
        for i in 0..n
            invariant
                n == units@.len(),
                all == units.deep_view(),
                savable::<H, D, K::Signature>(all),
                data::encoded_items::<UncheckedSignedUnit<H, D, K::Signature>>(all) == bytes@,
                forall|j: int|
                    0 <= j < i && (#[trigger] all[j]).signable.creator() == self.owner()
                        ==> all[j].signable.round() < Round::MAX,
        {
            let unit: &FullUnit<H, D> = units[i].as_signable();
            proof {
                assert(all[i as int] == units@[i as int].deep_view());
            }
            if unit.creator() == self.runway.index() && unit.round() == Round::MAX {
                proof {
                    assert(all[i as int].signable.creator() == self.owner());
                }
                return false;
            }
        }
        true
    }

    /// Load the backup and return all the modified components or fail. The units for the new backup
    /// are appended to `new_backup` in any case.
    pub fn load_backup(
        self,
        bytes: &Vec<u8>,
        new_backup: &mut Vec<UncheckedSignedUnit<H, D, K::Signature>>,
    ) -> (result: Result<BackupResult<'a, H, D, K>, LoaderError>)
        requires
            self.wf(),
            self.admits(bytes@),
        ensures
            result matches Ok(loaded) ==> {
                &&& loaded.runway.wf()
                &&& loaded.runway.checker() == self.checker()
                &&& loaded.runway.owner() == self.owner()
                &&& loaded.creator.wf()
            },
            match result {
                Err(LoaderError::Codec(err)) => {
                    &&& err@ == data::first_failure::<UncheckedSignedUnit<H, D, K::Signature>>(
                        bytes@,
                    )
                    &&& forall|units: Seq<SignedUnitView<HashOf<H>, D::V, SignatureOf<K>>>|
                        savable::<H, D, K::Signature>(units) ==> (#[trigger] data::encoded_items::<
                            UncheckedSignedUnit<H, D, K::Signature>,
                        >(units)) != bytes@
                    &&& final(new_backup).deep_view() == old(new_backup).deep_view()
                },
                _ => exists|
                    units: Seq<SignedUnitView<HashOf<H>, D::V, SignatureOf<K>>>,
                    saved: Seq<SignedUnitView<HashOf<H>, D::V, SignatureOf<K>>>,
                |
                    {
                        &&& savable::<H, D, K::Signature>(units)
                        &&& data::encoded_items::<UncheckedSignedUnit<H, D, K::Signature>>(units)
                            == bytes@
                        &&& #[trigger] outcome::<H, D, K>(
                            &self.checker(),
                            self.owner(),
                            self.deep_view(),
                            units,
                            saved,
                            result,
                        )
                        &&& final(new_backup).deep_view() == old(new_backup).deep_view() + saved
                    },
            },
    {
        let ghost checker = self.checker();
        let ghost owner = self.owner();
        let ghost start = self.deep_view();
        proof {
            lemma_unit_len::<H, D, K::Signature>();
        }
        let units: Vec<UncheckedSignedUnit<H, D, K::Signature>> = match decode_all(bytes) {
            Ok(units) => units,
            Err(err) => {
                return Err(LoaderError::Codec(err));
            },
        };
        let ghost all = units.deep_view();
        proof {
            lemma_savable::<H, D, K::Signature>(units);
        }
        let decoded_units: usize = units.len();
        let mut this: Self = self;
        proof {
            assert(all.take(0) =~= seq![]);
        }
        let mut ok: bool = true;
        let mut i: usize = 0;
        while ok && i < decoded_units
            invariant
                i <= decoded_units,
                decoded_units == units@.len(),
                all == units.deep_view(),
                leaves_a_round::<H, D, K>(&checker, owner, all),
                this.wf(),
                this.checker() == checker,
                this.owner() == owner,
                (this.deep_view(), ok) == all_processed::<H, D, K>(
                    &checker,
                    owner,
                    start,
                    all.take(i as int),
                ),
            decreases decoded_units - i,
        {
            proof {
                assert(all.take(i + 1).drop_last() =~= all.take(i as int));
                assert(all.take(i + 1).last() == units@[i as int].deep_view());
            }
            proof {
                assert(all[i as int] == units@[i as int].deep_view());
            }
            ok = this.process_unit(units[i].copy());
            i = i + 1;
        }
        proof {
            if ok {
                assert(all.take(i as int) =~= all);
            } else {
                lemma_stays_failed::<H, D, K>(&checker, owner, start, all, i as int);
            }
        }
        let ghost state = this.deep_view();
        let BackupLoader { runway, creator, mut saved, starting_round } = this;
        let ghost taken = saved.deep_view();
        new_backup.append(&mut saved);
        proof {
            assert(new_backup.deep_view() =~= old(new_backup).deep_view() + taken);
        }
        let reconstructed: usize = runway.store().size();
        let result: Result<BackupResult<'a, H, D, K>, LoaderError> = if !ok {
            Err(LoaderError::AlertsUnimplemented)
        } else if decoded_units != reconstructed {
            Err(LoaderError::ReconstructionFailure(decoded_units, reconstructed))
        } else {
            Ok(BackupResult { runway, creator, starting_round })
        };
        proof {
            assert(outcome::<H, D, K>(&checker, owner, start, all, taken, result));
        }
        result
    }
}

/// What the first actions say to save comes first.
proof fn lemma_prefix_saved<V, D, S>(actions: Seq<ActionView<V, D, S>>, n: int)
    requires
        0 <= n <= actions.len(),
    ensures
        to_save(actions.take(n)).is_prefix_of(to_save(actions)),
    decreases actions.len() - n,
{
    if n < actions.len() {
        lemma_prefix_saved(actions, n + 1);
        assert(actions.take(n + 1).drop_last() =~= actions.take(n));
    } else {
        assert(actions.take(n) =~= actions);
    }
}

/// Once there is need for an alert, the rest of the units makes no difference.
proof fn lemma_stays_failed<H: Hasher, D: Data, K: Keychain>(
    checker: &UnitValidator<K>,
    own_id: NodeIndex,
    state: LoadingView<HashOf<H>, D::V, SignatureOf<K>>,
    units: Seq<SignedUnitView<HashOf<H>, D::V, SignatureOf<K>>>,
    n: int,
)
    requires
        0 <= n <= units.len(),
        !all_processed::<H, D, K>(checker, own_id, state, units.take(n)).1,
    ensures
        all_processed::<H, D, K>(checker, own_id, state, units) == all_processed::<H, D, K>(
            checker,
            own_id,
            state,
            units.take(n),
        ),
    decreases units.len() - n,
{
    if n < units.len() {
        assert(units.take(n + 1).drop_last() =~= units.take(n));
        lemma_stays_failed::<H, D, K>(checker, own_id, state, units, n + 1);
    } else {
        assert(units.take(n) =~= units);
    }
}

} // verus!
