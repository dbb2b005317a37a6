//! The main loop of the handling of units: what to do after each event.
use crate::alerts::{ForkingNotification, SignedUnitView};
use crate::crypto::{HashOf, Hasher, Keychain, SignatureOf};
use crate::dag::unit::DagUnit;
use crate::data::Data;
use crate::runway;
use crate::runway::status::RunwayStatus;
use crate::runway::{
    Action, ActionView, NotificationInView, Runway, RunwayNotificationIn, RunwayView,
};
use crate::units::store::UnitStore;
use crate::units::validator::Validator as UnitValidator;
use crate::units::{SignedUnit, UncheckedSignedUnit};
use vstd::prelude::*;

verus! {

/// What happens to the handling of units. Where something may come in, `None` says that nothing
/// more will.
pub enum Event<H: Hasher, D: Data, S: Data> {
    /// The units of the backup have come in.
    Loaded(Option<Vec<UncheckedSignedUnit<H, D, S>>>),
    /// We have created a unit.
    Created(Option<SignedUnit<H, D, S>>),
    /// The alerts have something to say about forks.
    Notification(Option<ForkingNotification<H, D, S>>),
    /// A message about units has come in.
    Message(Option<RunwayNotificationIn<H, D, S>>),
    /// A unit has been saved.
    Saved(Option<DagUnit<H, D, S>>),
    /// It is time to report the status.
    StatusTick,
    /// What was decided has been done; says whether everybody concerned is still there.
    Done(bool),
    /// The signal to exit has come.
    Exit,
}

/// What has to be done next.
pub enum Decision<H: Hasher, D: Data, S: Data> {
    /// Perform these actions, and come back.
    Act(Vec<Action<H, D, S>>),
    /// Report the status, and come back.
    Report,
    /// Wait for the next event.
    Wait,
    /// Stop, as something went wrong.
    Stop,
    /// Let it be known that we are ready to exit, and stop.
    Terminate,
}

/// The units of the backup are received one after another.
pub open spec fn all_received<H: Hasher, D: Data, K: Keychain>(
    checker: &UnitValidator<K>,
    state: RunwayView<HashOf<H>, D::V, SignatureOf<K>>,
    units: Seq<SignedUnitView<HashOf<H>, D::V, SignatureOf<K>>>,
) -> (
    RunwayView<HashOf<H>, D::V, SignatureOf<K>>,
    Seq<ActionView<HashOf<H>, D::V, SignatureOf<K>>>,
)
    decreases units.len(),
{
    if units.len() == 0 {
        (state, seq![])
    } else {
        let (before, actions) = all_received::<H, D, K>(checker, state, units.drop_last());
        let (after, more) = runway::unit_received::<H, D, K>(checker, before, units.last());
        (after, actions + more)
    }
}

/// Handles units until the signal to exit comes or something goes wrong.
pub struct RunwayService<'a, H: Hasher, D: Data, K: Keychain> {
    runway: Runway<'a, H, D, K>,
    started: bool,
    exiting: bool,
}

impl<'a, H: Hasher, D: Data, K: Keychain> RunwayService<'a, H, D, K> {
    /// What handles the units.
    pub closed spec fn inner(&self) -> Runway<'a, H, D, K> {
        self.runway
    }

    /// Whether the units of the backup have been dealt with.
    pub closed spec fn started(&self) -> bool {
        self.started
    }

    /// Whether we are to exit.
    pub closed spec fn exiting(&self) -> bool {
        self.exiting
    }

    /// Nothing but the runway has changed.
    pub open spec fn same_course(&self, other: &Self) -> bool {
        &&& self.inner().wf()
        &&& self.inner().same_setup(&other.inner())
        &&& self.started() == other.started()
        &&& self.exiting() == other.exiting()
    }

    pub fn new(runway: Runway<'a, H, D, K>) -> (result: Self)
        ensures
            result.inner() == runway,
            !result.started(),
            !result.exiting(),
    {
        RunwayService { runway, started: false, exiting: false }
    }

    /// How the handling of units is doing.
    pub fn status(&self) -> (status: RunwayStatus<'_, H>)
        ensures
            status.missing_coords.deep_view() == self.inner().deep_view().missing_coords,
            status.missing_parents.deep_view() == self.inner().deep_view().missing_parents,
            self.inner().deep_view().dag.validator.processing.is_top_round(status.dag_top_round),
            self.inner().deep_view().store.is_top_round(status.store_top_round),
    {
        self.runway.status()
    }

    /// The units that are there.
    pub fn store(&self) -> (store: &UnitStore<DagUnit<H, D, K::Signature>>)
        ensures
            store.deep_view() == self.inner().deep_view().store,
    {
        self.runway.store()
    }

    fn receive_all(&mut self, units: Vec<UncheckedSignedUnit<H, D, K::Signature>>) -> (actions: Vec<
        Action<H, D, K::Signature>,
    >)
        requires
            old(self).inner().wf(),
        ensures
            final(self).same_course(old(self)),
            (final(self).inner().deep_view(), actions.deep_view()) == all_received::<H, D, K>(
                &old(self).inner().checker(),
                old(self).inner().deep_view(),
                units.deep_view(),
            ),
    {
        let ghost all = units.deep_view();
        let ghost start = self.inner().deep_view();
        let ghost checker = self.inner().checker();
        let n: usize = units.len();
        let mut actions: Vec<Action<H, D, K::Signature>> = Vec::new();
        proof {
            assert(all.take(0) =~= Seq::empty());
            assert(actions.deep_view() =~= seq![]);
        }
        for i in 0..n
            invariant
                n == units@.len(),
                all == units.deep_view(),
                self.same_course(old(self)),
                checker == old(self).inner().checker(),
                (self.inner().deep_view(), actions.deep_view()) == all_received::<H, D, K>(
                    &checker,
                    start,
                    all.take(i as int),
                ),
        {
            let ghost done = actions.deep_view();
            let unit: UncheckedSignedUnit<H, D, K::Signature> = units[i].copy();
            let mut more: Vec<Action<H, D, K::Signature>> = self.runway.on_unit_received(unit);
            let ghost added = more.deep_view();
            actions.append(&mut more);
            proof {
                assert(all.take(i + 1).drop_last() =~= all.take(i as int));
                assert(all.take(i + 1).last() == unit.deep_view());
                assert(actions.deep_view() =~= done + added);
            }
        }
        proof {
            assert(all.take(n as int) =~= all);
        }
        actions
    }

    /// What to do after an event.
    pub fn on_event(&mut self, event: Event<H, D, K::Signature>) -> (decision: Decision<
        H,
        D,
        K::Signature,
    >)
        requires
            old(self).inner().wf(),
        ensures
            final(self).inner().wf(),
            final(self).inner().same_setup(&old(self).inner()),
            ({
                let before = old(self).inner().deep_view();
                let after = final(self).inner().deep_view();
                let checker = old(self).inner().checker();
                match event {
                    Event::Loaded(Some(units)) => {
                        &&& final(self).same_course(old(self))
                        &&& decision matches Decision::Act(actions)
                        &&& (after, actions.deep_view()) == all_received::<H, D, K>(
                            &checker,
                            before,
                            units.deep_view(),
                        )
                    },
                    Event::Created(Some(unit)) => {
                        &&& final(self).same_course(old(self))
                        &&& decision matches Decision::Act(actions)
                        &&& (after, actions.deep_view()) == runway::unit_received::<H, D, K>(
                            &checker,
                            before,
                            unit.deep_view(),
                        )
                    },
                    Event::Notification(Some(notification)) => {
                        &&& final(self).same_course(old(self))
                        &&& decision matches Decision::Act(actions)
                        &&& (after, actions.deep_view()) == runway::forking_notified::<H, D, K>(
                            &checker,
                            before,
                            notification.deep_view(),
                        )
                    },
                    Event::Message(Some(message)) => {
                        &&& final(self).same_course(old(self))
                        &&& decision matches Decision::Act(actions)
                        &&& (after, actions.deep_view()) == runway::message_received::<H, D, K>(
                            &checker,
                            before,
                            message.deep_view(),
                        )
                    },
                    Event::Saved(Some(unit)) => {
                        &&& final(self).same_course(old(self))
                        &&& decision matches Decision::Act(actions)
                        &&& (after, actions.deep_view()) == runway::unit_saved::<H, D, K::Signature>(
                            old(self).inner().owner(),
                            before,
                            unit.deep_view(),
                        )
                    },
                    Event::Saved(None) => {
                        &&& *final(self) == *old(self)
                        &&& decision matches Decision::Act(actions)
                        &&& actions@.len() == 0
                    },
                    Event::Loaded(None)
                    | Event::Created(None)
                    | Event::Notification(None)
                    | Event::Message(None) => *final(self) == *old(self) && decision is Stop,
                    Event::StatusTick => *final(self) == *old(self) && decision is Report,
                    Event::Done(ok) => {
                        &&& final(self).inner() == old(self).inner()
                        &&& final(self).started()
                        &&& final(self).exiting() == (old(self).exiting() || !ok)
                        &&& if old(self).started() && final(self).exiting() {
                            decision is Terminate
                        } else {
                            decision is Wait
                        }
                    },
                    Event::Exit => {
                        &&& final(self).inner() == old(self).inner()
                        &&& final(self).started() == old(self).started()
                        &&& final(self).exiting()
                        &&& decision is Terminate
                    },
                }
            }),
    {
        match event {
            Event::Loaded(Some(units)) => Decision::Act(self.receive_all(units)),
            Event::Created(Some(unit)) => Decision::Act(
                self.runway.on_unit_received(unit.into_unchecked()),
            ),
            Event::Notification(Some(notification)) => Decision::Act(
                self.runway.on_forking_notification(notification),
            ),
            Event::Message(Some(message)) => Decision::Act(self.runway.on_unit_message(message)),
            Event::Saved(Some(unit)) => Decision::Act(self.runway.on_unit_backup_saved(unit)),
            // this alone is no reason to stop
            Event::Saved(None) => Decision::Act(Vec::new()),
            Event::Loaded(None) => Decision::Stop,
            Event::Created(None) => Decision::Stop,
            Event::Notification(None) => Decision::Stop,
            Event::Message(None) => Decision::Stop,
            Event::StatusTick => Decision::Report,
            Event::Done(ok) => {
                let started: bool = self.started;
                self.started = true;
                if !ok {
                    self.exiting = true;
                }
                if started && self.exiting {
                    Decision::Terminate
                } else {
                    Decision::Wait
                }
            },
            Event::Exit => {
                self.exiting = true;
                Decision::Terminate
            },
        }
    }
}

/// Units that come in one after another are each received as it is on its own, in order, and all that
/// follows from each is done.
pub proof fn law_received_one_by_one<H: Hasher, D: Data, K: Keychain>(
    checker: &UnitValidator<K>,
    state: RunwayView<HashOf<H>, D::V, SignatureOf<K>>,
    units: Seq<SignedUnitView<HashOf<H>, D::V, SignatureOf<K>>>,
    n: int,
)
    requires
        0 <= n < units.len(),
    ensures
        all_received::<H, D, K>(checker, state, seq![]).0 == state,
        all_received::<H, D, K>(checker, state, seq![]).1.len() == 0,
        ({
            let (before, first) = all_received::<H, D, K>(checker, state, units.take(n));
            let (after, all) = all_received::<H, D, K>(checker, state, units.take(n + 1));
            let (end, more) = runway::message_received::<H, D, K>(
                checker,
                before,
                NotificationInView::NewUnit(units[n]),
            );
            after == end && all == first + more
        }),
{
    assert(units.take(n + 1).drop_last() =~= units.take(n));
}

} // verus!
