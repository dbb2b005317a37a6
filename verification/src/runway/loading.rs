//! Loading a backup, and finding out the round to start from.
use crate::alerts::SignedUnitView;
use crate::crypto::Hasher;
use crate::data::Data;
use crate::nodes::{NodeIndex, Round, SessionId};
use crate::runway::backup;
use crate::runway::backup::{load, starting_round, BackupItem, BackupItemView, LoadingError};
use crate::units::UncheckedSignedUnit;
use std::marker::PhantomData;
use vstd::prelude::*;

verus! {

/// What happens to the loading of a backup.
pub enum Event {
    /// The backup has been read, or that has failed.
    Read(Option<Vec<u8>>),
    /// The items have been handed over, or that has failed.
    HandedOver(bool),
    /// The round behind our newest unit that others know of has been collected, or that has failed.
    Collected(Option<Round>),
}

/// What has to be done next.
pub enum Decision<H: Hasher, D: Data, S: Data, P: Data> {
    /// Hand over the items of the backup.
    HandOver(Vec<BackupItem<H, D, S, P>>),
    /// Wait for what is collected from others.
    AwaitCollection,
    /// Let it be known what round to start from, if any, and stop.
    Start(Option<Round>),
    /// Let it be known that there is no round to start from, for this reason, and stop.
    Fail(LoadingError),
}

/// The units among the items, with their signatures, in order.
pub open spec fn signed_units_of<V, D, S, P>(items: Seq<BackupItemView<V, D, S, P>>) -> Seq<
    SignedUnitView<V, D, S>,
>
    decreases items.len(),
{
    if items.len() == 0 {
        seq![]
    } else {
        match items.last() {
            BackupItemView::Unit(unit) => signed_units_of(items.drop_last()).push(unit),
            _ => signed_units_of(items.drop_last()),
        }
    }
}

/// The units among the items, for the runway.
pub fn units_for_runway<H: Hasher, D: Data, S: Data, P: Data>(
    items: &Vec<BackupItem<H, D, S, P>>,
) -> (units: Vec<UncheckedSignedUnit<H, D, S>>)
    ensures
        units.deep_view() == signed_units_of(items.deep_view()),
{
    let ghost all = items.deep_view();
    let n: usize = items.len();
    let mut units: Vec<UncheckedSignedUnit<H, D, S>> = Vec::new();
    proof {
        assert(units.deep_view() =~= signed_units_of(all.take(0)));
    }
    for i in 0..n
        invariant
            n == items@.len(),
            all == items.deep_view(),
            units.deep_view() == signed_units_of(all.take(i as int)),
    {
        let ghost before = units.deep_view();
        proof {
            assert(all.take(i + 1).drop_last() =~= all.take(i as int));
            assert(all.take(i + 1).last() == items@[i as int].deep_view());
        }
        if let BackupItem::Unit(unit) = &items[i] {
            units.push(unit.copy());
            proof {
                assert(units.deep_view() =~= before.push(unit.deep_view()));
            }
        }
    }
    proof {
        assert(all.take(n as int) =~= all);
    }
    units
}

/// Loads a backup: hands over the items in it, and decides what round to start from.
pub struct Loading<H: Hasher, D: Data, S: Data, P: Data> {
    index: NodeIndex,
    session_id: SessionId,
    next_round: Option<Round>,
    phantom: PhantomData<(H, D, S, P)>,
}

impl<H: Hasher, D: Data, S: Data, P: Data> Loading<H, D, S, P> {
    /// Whose backup this is.
    pub closed spec fn owner(&self) -> NodeIndex {
        self.index
    }

    /// The session of the backup.
    pub closed spec fn session(&self) -> SessionId {
        self.session_id
    }

    /// The round to go on from according to the backup.
    pub closed spec fn next_round(&self) -> Option<Round> {
        self.next_round
    }

    pub fn new(index: NodeIndex, session_id: SessionId) -> (result: Self)
        ensures
            result.owner() == index,
            result.session() == session_id,
            result.next_round() is None,
    {
        Loading { index, session_id, next_round: None, phantom: PhantomData }
    }

    /// What to do after an event.
    pub fn on_event(&mut self, event: Event) -> (decision: Decision<H, D, S, P>)
        ensures
            final(self).owner() == old(self).owner(),
            final(self).session() == old(self).session(),
            match event {
                Event::Read(None) => {
                    &&& decision matches Decision::Start(None)
                    &&& final(self).next_round() == old(self).next_round()
                },
                Event::Read(Some(bytes)) => match decision {
                    Decision::HandOver(items) => {
                        &&& final(self).next_round() matches Some(round)
                        &&& backup::loads::<H, D, S, P>(
                            bytes@,
                            old(self).owner(),
                            old(self).session(),
                            items.deep_view(),
                            round,
                        )
                    },
                    Decision::Fail(error) => {
                        &&& final(self).next_round() == old(self).next_round()
                        &&& backup::fails::<H, D, S, P>(
                            bytes@,
                            old(self).owner(),
                            old(self).session(),
                            error,
                        )
                    },
                    _ => false,
                },
                Event::HandedOver(ok) => {
                    &&& final(self).next_round() == old(self).next_round()
                    &&& if ok {
                        decision is AwaitCollection
                    } else {
                        decision matches Decision::Start(None)
                    }
                },
                Event::Collected(collected) => {
                    &&& final(self).next_round() == old(self).next_round()
                    &&& decision matches Decision::Start(start)
                    &&& start == (match old(self).next_round() {
                        Some(next_round) => backup::start_from(next_round, collected),
                        None => None,
                    })
                },
            },
    {
        match event {
            Event::Read(None) => Decision::Start(None),
            Event::Read(Some(bytes)) => match load(&bytes, self.index, self.session_id) {
                Ok(loaded) => {
                    self.next_round = Some(loaded.next_round);
                    Decision::HandOver(loaded.items)
                },
                Err(error) => Decision::Fail(error),
            },
            Event::HandedOver(ok) => if ok {
                Decision::AwaitCollection
            } else {
                Decision::Start(None)
            },
            Event::Collected(collected) => match self.next_round {
                Some(next_round) => Decision::Start(starting_round(next_round, collected)),
                None => Decision::Start(None),
            },
        }
    }
}

} // verus!
