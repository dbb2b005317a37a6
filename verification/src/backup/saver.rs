//! Saves units and announces that they have been saved.
use crate::crypto::{HashOf, Hasher};
use crate::dag::unit::{DagUnit, DagUnitView};
use crate::data::{Data, Encoding};
use crate::units::UncheckedSignedUnit;
use std::marker::PhantomData;
use vstd::prelude::*;

verus! {

/// What happens to the saving of units.
pub enum Event<H: Hasher, D: Data, S: Data> {
    /// A unit to be saved has come in.
    Unit(DagUnit<H, D, S>),
    /// No more units will come in.
    Closed,
    /// The bytes have been written, or that has failed.
    Written(bool),
    /// The unit has been handed over, or that has failed.
    Announced(bool),
    /// The signal to exit has come.
    Exit,
}

/// The model of an event.
pub enum EventView<V, D, S> {
    Unit(DagUnitView<V, D, S>),
    Closed,
    Written(bool),
    Announced(bool),
    Exit,
}

impl<H: Hasher, D: Data, S: Data> DeepView for Event<H, D, S> {
    type V = EventView<HashOf<H>, D::V, S::V>;

    open spec fn deep_view(&self) -> EventView<HashOf<H>, D::V, S::V> {
        match self {
            Event::Unit(unit) => EventView::Unit(unit.deep_view()),
            Event::Closed => EventView::Closed,
            Event::Written(ok) => EventView::Written(*ok),
            Event::Announced(ok) => EventView::Announced(*ok),
            Event::Exit => EventView::Exit,
        }
    }
}

/// What has to be done next.
pub enum Decision<H: Hasher, D: Data, S: Data> {
    /// Wait for a unit or the signal to exit.
    Wait,
    /// Write these bytes to the backup.
    Write(Vec<u8>),
    /// Hand over a unit that has been saved.
    Announce(DagUnit<H, D, S>),
    /// Stop, as something went wrong.
    Stop,
    /// Let it be known that we are ready to exit, and stop.
    Terminate,
}

/// The model of a decision.
pub enum DecisionView<V, D, S> {
    Wait,
    Write(Seq<u8>),
    Announce(DagUnitView<V, D, S>),
    Stop,
    Terminate,
}

impl<H: Hasher, D: Data, S: Data> DeepView for Decision<H, D, S> {
    type V = DecisionView<HashOf<H>, D::V, S::V>;

    open spec fn deep_view(&self) -> DecisionView<HashOf<H>, D::V, S::V> {
        match self {
            Decision::Wait => DecisionView::Wait,
            Decision::Write(bytes) => DecisionView::Write(bytes@),
            Decision::Announce(unit) => DecisionView::Announce(unit.deep_view()),
            Decision::Stop => DecisionView::Stop,
            Decision::Terminate => DecisionView::Terminate,
        }
    }
}

/// What follows from an event: the unit that is being saved, if any, and what to do.
pub open spec fn decided<H: Hasher, D: Data, S: Data>(
    saving: Option<DagUnitView<HashOf<H>, D::V, S::V>>,
    event: EventView<HashOf<H>, D::V, S::V>,
) -> (Option<DagUnitView<HashOf<H>, D::V, S::V>>, DecisionView<HashOf<H>, D::V, S::V>) {
    match event {
        EventView::Unit(unit) => (
            Some(unit),
            DecisionView::Write(UncheckedSignedUnit::<H, D, S>::encoded(unit.unit)),
        ),
        EventView::Closed => (None, DecisionView::Stop),
        EventView::Written(ok) => match saving {
            Some(unit) if ok => (None, DecisionView::Announce(unit)),
            _ => (None, DecisionView::Stop),
        },
        EventView::Announced(ok) => if ok {
            (None, DecisionView::Wait)
        } else {
            (None, DecisionView::Stop)
        },
        EventView::Exit => (None, DecisionView::Terminate),
    }
}

/// Turns items into the bytes to be saved.
pub struct BackupSaver<D: Data> {
    phantom: PhantomData<D>,
}

impl<D: Data> BackupSaver<D> {
    /// A new backup saver.
    pub fn new() -> Self {
        BackupSaver { phantom: PhantomData }
    }

    /// The bytes to be written, all of them, to save a single item.
    pub fn save_item(&self, item: &D) -> (bytes: Vec<u8>)
        ensures
            bytes@ == D::encoded(item.deep_view()),
    {
        item.encode()
    }
}

/// Component responsible for saving units into backup.
/// It waits for units to appear, has them written to backup one at a time, and announces each
/// successful write.
pub struct SaverService<H: Hasher, D: Data, S: Data> {
    saver: BackupSaver<UncheckedSignedUnit<H, D, S>>,
    saving: Option<DagUnit<H, D, S>>,
}

impl<H: Hasher, D: Data, S: Data> DeepView for SaverService<H, D, S> {
    type V = Option<DagUnitView<HashOf<H>, D::V, S::V>>;

    closed spec fn deep_view(&self) -> Option<DagUnitView<HashOf<H>, D::V, S::V>> {
        self.saving.deep_view()
    }
}

impl<H: Hasher, D: Data, S: Data> SaverService<H, D, S> {
    pub fn new(saver: BackupSaver<UncheckedSignedUnit<H, D, S>>) -> (result: Self)
        ensures
            result.deep_view() is None,
    {
        SaverService { saver, saving: None }
    }

    /// What to do after an event.
    pub fn on_event(&mut self, event: Event<H, D, S>) -> (decision: Decision<H, D, S>)
        ensures
            (final(self).deep_view(), decision.deep_view()) == decided::<H, D, S>(
                old(self).deep_view(),
                event.deep_view(),
            ),
    {
        let mut saving: Option<DagUnit<H, D, S>> = None;
        std::mem::swap(&mut saving, &mut self.saving);
        match event {
            Event::Unit(unit) => {
                let bytes: Vec<u8> = self.saver.save_item(&unit.to_unchecked());
                self.saving = Some(unit);
                Decision::Write(bytes)
            },
            Event::Closed => Decision::Stop,
            Event::Written(ok) => match saving {
                Some(unit) => if ok {
                    Decision::Announce(unit)
                } else {
                    Decision::Stop
                },
                None => Decision::Stop,
            },
            Event::Announced(ok) => if ok {
                Decision::Wait
            } else {
                Decision::Stop
            },
            Event::Exit => Decision::Terminate,
        }
    }
}

/// A unit is announced only once it has been written, and it is the very unit that came in.
pub proof fn law_announced_after_written<H: Hasher, D: Data, S: Data>(
    saving: Option<DagUnitView<HashOf<H>, D::V, S::V>>,
    unit: DagUnitView<HashOf<H>, D::V, S::V>,
    event: EventView<HashOf<H>, D::V, S::V>,
)
    ensures
        decided::<H, D, S>(saving, event).1 is Announce ==> event == EventView::<
            HashOf<H>,
            D::V,
            S::V,
        >::Written(true),
        ({
            let (written, write) = decided::<H, D, S>(saving, EventView::Unit(unit));
            &&& write == DecisionView::<HashOf<H>, D::V, S::V>::Write(
                UncheckedSignedUnit::<H, D, S>::encoded(unit.unit),
            )
            &&& decided::<H, D, S>(written, EventView::Written(true)).1 == DecisionView::<
                HashOf<H>,
                D::V,
                S::V,
            >::Announce(unit)
        }),
{
}

/// Units come in one after another, and each is written and handed over before the next one: what
/// is being saved in the end, and what is announced.
pub open spec fn all_saved<H: Hasher, D: Data, S: Data>(
    saving: Option<DagUnitView<HashOf<H>, D::V, S::V>>,
    units: Seq<DagUnitView<HashOf<H>, D::V, S::V>>,
) -> (Option<DagUnitView<HashOf<H>, D::V, S::V>>, Seq<DagUnitView<HashOf<H>, D::V, S::V>>)
    decreases units.len(),
{
    if units.len() == 0 {
        (saving, seq![])
    } else {
        let (idle, before) = all_saved::<H, D, S>(saving, units.drop_last());
        let (writing, _) = decided::<H, D, S>(idle, EventView::Unit(units.last()));
        let (announcing, decision) = decided::<H, D, S>(writing, EventView::Written(true));
        let (after, _) = decided::<H, D, S>(announcing, EventView::Announced(true));
        (
            after,
            match decision {
                DecisionView::Announce(unit) => before.push(unit),
                _ => before,
            },
        )
    }
}

/// Units are announced in the order in which they came in, all of them and nothing else.
pub proof fn law_announced_in_order<H: Hasher, D: Data, S: Data>(
    saving: Option<DagUnitView<HashOf<H>, D::V, S::V>>,
    units: Seq<DagUnitView<HashOf<H>, D::V, S::V>>,
)
    ensures
        all_saved::<H, D, S>(saving, units).1 == units,
    decreases units.len(),
{
    if units.len() == 0 {
        assert(all_saved::<H, D, S>(saving, units).1 =~= units);
    } else {
        law_announced_in_order::<H, D, S>(saving, units.drop_last());
        assert(units =~= units.drop_last().push(units.last()));
    }
}

/// Each event leads to one decision: a unit that comes in is written; once it has been written it is
/// announced; once it has been announced the next one is waited for. The signal to exit, and nothing
/// else, makes us terminate, and every failure makes us stop. Only a unit that came in last is being
/// saved.
pub proof fn law_one_step_at_a_time<H: Hasher, D: Data, S: Data>(
    saving: Option<DagUnitView<HashOf<H>, D::V, S::V>>,
    event: EventView<HashOf<H>, D::V, S::V>,
)
    ensures
        ({
            let (after, decision) = decided::<H, D, S>(saving, event);
            &&& decision is Write <==> event is Unit
            &&& decision is Announce <==> saving is Some && event == EventView::<
                HashOf<H>,
                D::V,
                S::V,
            >::Written(true)
            &&& decision matches DecisionView::Announce(unit) ==> saving == Some(unit)
            &&& decision is Wait <==> event == EventView::<HashOf<H>, D::V, S::V>::Announced(true)
            &&& decision is Terminate <==> event is Exit
            &&& after is Some <==> event is Unit
            &&& event matches EventView::Unit(unit) ==> after == Some(unit)
        }),
{
}

} // verus!
