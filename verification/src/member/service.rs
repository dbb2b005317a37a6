//! The main loop of a member: what to do after each event.
use crate::crypto::{HashOf, Hasher};
use crate::data::Data;
use crate::dissemination::UnitMessage;
use crate::member;
use crate::member::delays::Delays;
use crate::member::status::MemberStatus;
use crate::member::{Action, ActionView, Member, Notification, NotificationView};
use crate::reconstruction::parents::Request as ReconstructionRequest;
use crate::runway;
use crate::runway::RunwayNotificationIn;
use crate::units::UncheckedSignedUnit;
use vstd::prelude::*;

verus! {

/// What happens to a member. Where something may come in, `None` says that nothing more will.
pub enum Event<H: Hasher, D: Data, S: Data> {
    /// A notification of the runway has come in.
    Notification(Option<Notification<H, D, S>>),
    /// A request needs no more answers.
    Resolved(Option<ReconstructionRequest<H>>),
    /// A message about units has come in over the network.
    Message(Option<UnitMessage<H, D, S>>),
    /// It is time to see which tasks are due.
    Tick,
    /// It is time to report the status.
    StatusTick,
    /// What was decided has been done; says whether everybody concerned is still there.
    Done(bool),
    /// The signal to exit has come.
    Exit,
}

/// What has to be done next.
pub enum Decision<H: Hasher, D: Data, S: Data> {
    /// Perform these actions, and come back.
    Act(Vec<Action<H, D, S>>),
    /// Pass this on to the runway, and come back.
    Forward(RunwayNotificationIn<H, D, S>),
    /// Report the status, and come back.
    Report,
    /// Wait for the next event.
    Wait,
    /// Stop, as something went wrong.
    Stop,
    /// Let it be known that we are ready to exit, and stop.
    Terminate,
}

/// Runs a member until the signal to exit comes or something goes wrong.
pub struct MemberService<H: Hasher, D: Data, S: Data, C: Delays> {
    member: Member<H, D, S, C>,
    exiting: bool,
}

impl<H: Hasher, D: Data, S: Data, C: Delays> MemberService<H, D, S, C> {
    /// The member.
    pub closed spec fn inner(&self) -> Member<H, D, S, C> {
        self.member
    }

    /// Whether we are to exit.
    pub closed spec fn exiting(&self) -> bool {
        self.exiting
    }

    /// Whether an event can be dealt with: a new unit can be discovered.
    pub open spec fn admits(&self, event: Event<H, D, S>) -> bool {
        event matches Event::Notification(Some(notification)) ==> (
        notification.deep_view() matches NotificationView::NewAnyUnit(unit)
            ==> self.inner().admits(unit))
    }

    pub fn new(member: Member<H, D, S, C>) -> (result: Self)
        ensures
            result.inner() == member,
            !result.exiting(),
    {
        MemberService { member, exiting: false }
    }

    /// How the member is doing.
    pub fn status(&self) -> (status: MemberStatus<'_, H, D, S>)
        ensures
            status.tasks() == self.inner().deep_view().tasks,
            status.coords() == self.inner().deep_view().not_resolved_coords,
            status.parents() == self.inner().deep_view().not_resolved_parents,
    {
        self.member.status()
    }

    /// Whether a unit can be discovered.
    pub fn can_discover(&self, unit: &UncheckedSignedUnit<H, D, S>) -> (result: bool)
        ensures
            result == self.inner().admits(unit.deep_view()),
    {
        self.member.can_discover(unit)
    }

    /// Performs a task that is due, if there is one.
    pub fn trigger_task(&mut self) -> (actions: Option<Vec<Action<H, D, S>>>)
        requires
            old(self).inner().wf(),
        ensures
            final(self).inner().wf(),
            final(self).inner().same_setup(&old(self).inner()),
            final(self).exiting() == old(self).exiting(),
            member::some_task_triggered(
                old(self).inner().schedule(),
                old(self).inner().owner(),
                old(self).inner().peers(),
                old(self).inner().deep_view(),
                final(self).inner().deep_view(),
                actions.deep_view(),
            ),
    {
        self.member.trigger_task()
    }

    /// What to do after an event.
    pub fn on_event(&mut self, event: Event<H, D, S>) -> (decision: Decision<H, D, S>)
        requires
            old(self).inner().wf(),
            old(self).admits(event),
        ensures
            final(self).inner().wf(),
            final(self).inner().same_setup(&old(self).inner()),
            ({
                let before = old(self).inner().deep_view();
                let after = final(self).inner().deep_view();
                match event {
                    Event::Notification(Some(notification)) => {
                        &&& final(self).exiting() == old(self).exiting()
                        &&& decision matches Decision::Act(actions)
                        &&& member::notified(
                            old(self).inner().schedule(),
                            before,
                            notification.deep_view(),
                            after,
                            actions.deep_view(),
                        )
                    },
                    Event::Resolved(Some(request)) => {
                        &&& final(self).exiting() == old(self).exiting()
                        &&& after == member::resolved(before, request.deep_view())
                        &&& decision matches Decision::Act(actions)
                        &&& actions@.len() == 0
                    },
                    Event::Message(Some(message)) => {
                        &&& *final(self) == *old(self)
                        &&& decision matches Decision::Forward(notification)
                        &&& notification.deep_view() == runway::notification_of(message.deep_view())
                    },
                    Event::Notification(None) | Event::Resolved(None) | Event::Message(None) => {
                        *final(self) == *old(self) && decision is Stop
                    },
                    Event::Tick => {
                        &&& *final(self) == *old(self)
                        &&& decision matches Decision::Act(actions)
                        &&& actions.deep_view() == seq![
                            ActionView::<HashOf<H>, D::V, S::V>::TriggerTasks,
                        ]
                    },
                    Event::StatusTick => *final(self) == *old(self) && decision is Report,
                    Event::Done(ok) => {
                        &&& final(self).inner() == old(self).inner()
                        &&& final(self).exiting() == (old(self).exiting() || !ok)
                        &&& if final(self).exiting() {
                            decision is Terminate
                        } else {
                            decision is Wait
                        }
                    },
                    Event::Exit => {
                        &&& final(self).inner() == old(self).inner()
                        &&& final(self).exiting()
                        &&& decision is Terminate
                    },
                }
            }),
    {
        match event {
            Event::Notification(Some(notification)) => Decision::Act(
                self.member.on_unit_message_from_units(notification),
            ),
            Event::Resolved(Some(request)) => {
                self.member.on_resolved_request(&request);
                Decision::Act(Vec::new())
            },
            Event::Message(Some(message)) => match RunwayNotificationIn::try_from(message) {
                Ok(notification) => Decision::Forward(notification),
                Err(()) => Decision::Act(Vec::new()),
            },
            Event::Notification(None) => Decision::Stop,
            Event::Resolved(None) => Decision::Stop,
            Event::Message(None) => Decision::Stop,
            Event::Tick => {
                let mut actions: Vec<Action<H, D, S>> = Vec::new();
                actions.push(Action::TriggerTasks);
                proof {
                    assert(actions.deep_view() =~= seq![
                        ActionView::<HashOf<H>, D::V, S::V>::TriggerTasks,
                    ]);
                }
                Decision::Act(actions)
            },
            Event::StatusTick => Decision::Report,
            Event::Done(ok) => {
                if !ok {
                    self.exiting = true;
                }
                if self.exiting {
                    Decision::Terminate
                } else {
                    Decision::Wait
                }
            },
            Event::Exit => {
                self.exiting = true;
                Decision::Terminate
            },
        }
    }
}

} // verus!
