//! Starting the parts of a session, and noticing that one of them has ended.
use crate::crypto::{HashOf, Hasher, Keychain, SignatureOf};
use crate::data::Data;
use crate::dissemination::{Request, RequestView};
use crate::nodes::{NodeCount, Round};
use crate::runway::collection::{Collection, CollectionView, IO};
use crate::runway::{NotificationOutView, RunwayNotificationOut};
use crate::units::validator::Validator;
use vstd::prelude::*;

verus! {

/// What can come to an end while units are being handled.
#[derive(Clone, Copy, Debug, PartialEq, Eq, Structural)]
pub enum Ended {
    /// The handling of units.
    Runway,
    /// The handling of alerts.
    Alerter,
    /// The creation of units, without having been told to.
    Creator,
    /// The saving of units.
    BackupSaver,
    /// Finding out the round that others allow to start from.
    StartingRound,
    /// Loading the backup.
    BackupLoading,
    /// The session as a whole: the signal to exit has come.
    Session,
}

/// Whether everything has to stop. Only what is done once, at the start, may end on its own.
pub fn has_to_stop(ended: Ended) -> (result: bool)
    ensures
        result == !(ended == Ended::StartingRound || ended == Ended::BackupLoading),
{
    match ended {
        Ended::StartingRound => false,
        Ended::BackupLoading => false,
        _ => true,
    }
}

/// Starts the initial unit collection; everyone is asked for our newest unit.
pub fn initial_unit_collection<'a, H: Hasher, D: Data, K: Keychain>(
    keychain: &'a K,
    validator: &'a Validator<'a, K>,
    threshold: NodeCount,
) -> (result: (IO<'a, K>, RunwayNotificationOut<H, D, K::Signature>))
    ensures
        result.0.gathering(),
        result.0.inner().keys() == *keychain,
        result.0.inner().checker() == *validator,
        result.0.inner().needed() == threshold,
        result.0.inner().deep_view() == (CollectionView {
            starting_round: 0,
            responders: Set::empty(),
        }),
        result.1.deep_view() == NotificationOutView::<HashOf<H>, D::V, SignatureOf<K>>::Request(
            RequestView::NewestUnit(keychain.node(), result.0.inner().own_salt()),
        ),
{
    let (collection, salt) = Collection::new(keychain, validator, threshold);
    let notification: RunwayNotificationOut<H, D, K::Signature> = RunwayNotificationOut::Request(
        Request::NewestUnit(keychain.index(), salt),
    );
    (IO::new(collection), notification)
}

/// The round to start from when nobody is asked.
pub fn trivial_start() -> (round: Round)
    ensures
        round == 0,
{
    0
}

} // verus!
