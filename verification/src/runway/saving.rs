//! Saving units and data about alerts, and announcing that they have been saved.
use crate::crypto::{HashOf, Hasher};
use crate::data::{Data, Encoding};
use crate::runway::backup::{announce, BackupItem, BackupItemView, BackupWriter, SavedFor};
use vstd::prelude::*;

verus! {

/// What happens to the saving of items.
pub enum Event<H: Hasher, D: Data, S: Data, P: Data> {
    /// An item to be saved has come in, or no more will.
    Item(Option<BackupItem<H, D, S, P>>),
    /// The bytes have been written, or that has failed.
    Written(bool),
    /// The item has been handed over, or that has failed.
    Announced(bool),
    /// The signal to exit has come.
    Exit,
}

/// What has to be done next.
pub enum Decision<H: Hasher, D: Data, S: Data, P: Data> {
    /// Wait for an item or the signal to exit.
    Wait,
    /// Write these bytes to the backup.
    Write(Vec<u8>),
    /// Hand over an item that has been saved.
    Announce(SavedFor<H, D, S, P>),
    /// Stop, as something went wrong.
    Stop,
    /// Let it be known that we are ready to exit, and stop.
    Terminate,
}

/// Whether this is the item, for the one who is to hear of it.
pub open spec fn announces<H: Hasher, D: Data, S: Data, P: Data>(
    saved: SavedFor<H, D, S, P>,
    item: BackupItemView<HashOf<H>, D::V, S::V, P::V>,
) -> bool {
    match saved {
        SavedFor::Runway(unit) => item == BackupItemView::<HashOf<H>, D::V, S::V, P::V>::Unit(
            unit.deep_view(),
        ),
        SavedFor::Alerter(alert_data) => item == BackupItemView::<
            HashOf<H>,
            D::V,
            S::V,
            P::V,
        >::AlertData(alert_data.deep_view()),
    }
}

/// Saves items one at a time; each is announced once it has been written.
pub struct Saving<H: Hasher, D: Data, S: Data, P: Data> {
    saving: Option<BackupItem<H, D, S, P>>,
}

impl<H: Hasher, D: Data, S: Data, P: Data> Saving<H, D, S, P> {
    /// The item that is being saved.
    pub closed spec fn saving(&self) -> Option<BackupItemView<HashOf<H>, D::V, S::V, P::V>> {
        self.saving.deep_view()
    }

    pub fn new() -> (result: Self)
        ensures
            result.saving() is None,
    {
        Saving { saving: None }
    }

    /// What to do after an event.
    pub fn on_event(&mut self, event: Event<H, D, S, P>) -> (decision: Decision<H, D, S, P>)
        ensures
            match event {
                Event::Item(Some(item)) => {
                    &&& final(self).saving() == Some(item.deep_view())
                    &&& decision matches Decision::Write(bytes)
                    &&& bytes@ == BackupItem::<H, D, S, P>::encoded(item.deep_view())
                },
                Event::Item(None) => decision is Stop && final(self).saving() is None,
                Event::Written(ok) => {
                    &&& final(self).saving() is None
                    &&& match old(self).saving() {
                        Some(item) if ok => {
                            &&& decision matches Decision::Announce(saved)
                            &&& announces(saved, item)
                        },
                        _ => decision is Stop,
                    }
                },
                Event::Announced(ok) => {
                    &&& final(self).saving() is None
                    &&& if ok {
                        decision is Wait
                    } else {
                        decision is Stop
                    }
                },
                Event::Exit => decision is Terminate && final(self).saving() is None,
            },
    {
        let mut saving: Option<BackupItem<H, D, S, P>> = None;
        std::mem::swap(&mut saving, &mut self.saving);
        match event {
            Event::Item(Some(item)) => {
                let bytes: Vec<u8> = BackupWriter::<()>::to_write(&item);
                self.saving = Some(item);
                Decision::Write(bytes)
            },
            Event::Item(None) => Decision::Stop,
            Event::Written(ok) => match saving {
                Some(item) => if ok {
                    Decision::Announce(announce(item))
                } else {
                    Decision::Stop
                },
                None => Decision::Stop,
            },
            Event::Announced(ok) => if ok {
                Decision::Wait
            } else {
                Decision::Stop
            },
            Event::Exit => Decision::Terminate,
        }
    }
}

} // verus!
