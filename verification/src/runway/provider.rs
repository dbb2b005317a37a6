//! Providing units with data and signing them.
use crate::crypto::{Hasher, Keychain};
use crate::data::Data;
use crate::nodes::{NodeIndex, SessionId};
use crate::runway::packer;
use crate::runway::packer::{pack, Decision, Event};
use vstd::prelude::*;

verus! {

/// Provides units with data: waits for the data, then for the unit that it goes into.
pub struct Provider<'a, D: Data, K: Keychain> {
    keychain: &'a K,
    session_id: SessionId,
    waiting: Option<D>,
}

impl<'a, D: Data, K: Keychain> Provider<'a, D, K> {
    /// The keys that units are signed with.
    pub closed spec fn keys(&self) -> K {
        *self.keychain
    }

    /// The session of the units.
    pub closed spec fn session(&self) -> SessionId {
        self.session_id
    }

    /// The data that waits for its unit.
    pub closed spec fn waiting(&self) -> Option<D::V> {
        self.waiting.deep_view()
    }

    pub fn new(keychain: &'a K, session_id: SessionId) -> (result: Self)
        ensures
            result.keys() == *keychain,
            result.session() == session_id,
            result.waiting() is None,
    {
        Provider { keychain, session_id, waiting: None }
    }

    pub fn index(&self) -> (index: NodeIndex)
        ensures
            index == self.keys().node(),
    {
        self.keychain.index()
    }

    /// What to do after an event. That a signed unit could not be handed over is no reason to stop.
    pub fn on_event<H: Hasher>(&mut self, event: Event<H, D>) -> (decision: Decision<
        H,
        D,
        K::Signature,
    >)
        requires
            event matches Event::PreUnit(Some(pre_unit)) ==> pre_unit.deep_view().coord.creator
                == old(self).keys().node(),
        ensures
            final(self).keys() == old(self).keys(),
            final(self).session() == old(self).session(),
            match event {
                Event::Data(data) => {
                    &&& decision is AwaitPreUnit
                    &&& final(self).waiting() == Some(data.deep_view())
                },
                Event::PreUnit(Some(pre_unit)) => {
                    &&& final(self).waiting() is None
                    &&& match old(self).waiting() {
                        Some(data) => decision matches Decision::Send(unit) && packer::packed::<
                            H,
                            D,
                            K,
                        >(
                            old(self).keys(),
                            old(self).session(),
                            pre_unit.deep_view(),
                            data,
                            unit.deep_view(),
                        ),
                        None => decision is AwaitData,
                    }
                },
                Event::PreUnit(None) => decision is Stop && final(self).waiting() is None,
                Event::Sent(_) => decision is AwaitData && final(self).waiting() is None,
            },
    {
        let mut waiting: Option<D> = None;
        std::mem::swap(&mut waiting, &mut self.waiting);
        match event {
            Event::Data(data) => {
                self.waiting = Some(data);
                Decision::AwaitPreUnit
            },
            Event::PreUnit(Some(pre_unit)) => match waiting {
                Some(data) => Decision::Send(pack(self.keychain, self.session_id, pre_unit, data)),
                None => Decision::AwaitData,
            },
            Event::PreUnit(None) => Decision::Stop,
            Event::Sent(_) => Decision::AwaitData,
        }
    }
}

} // verus!
