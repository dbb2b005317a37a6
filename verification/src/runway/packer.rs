//! Putting data into units and signing them.
use crate::crypto::{HashOf, Hasher, Keychain, Signable, SignatureOf};
use crate::data::Data;
use crate::nodes::{NodeIndex, SessionId};
use crate::signed::{Signed, SignedView};
use crate::units::{FullUnit, FullUnitView, PreUnit, PreUnitView, SignedUnit};
use vstd::prelude::*;

verus! {

/// Whether this is the signed unit that is made of a unit without data, and of data.
pub open spec fn packed<H: Hasher, D: Data, K: Keychain>(
    keychain: K,
    session_id: SessionId,
    pre_unit: PreUnitView<HashOf<H>>,
    data: D::V,
    unit: SignedView<FullUnitView<HashOf<H>, D::V>, SignatureOf<K>>,
) -> bool {
    &&& unit.signable == (FullUnitView { pre_unit, data: Some(data), session_id })
    &&& keychain.signs(FullUnit::<H, D>::message_of(unit.signable), unit.signature)
}

/// Puts data into a unit of ours and signs it.
pub fn pack<H: Hasher, D: Data, K: Keychain>(
    keychain: &K,
    session_id: SessionId,
    pre_unit: PreUnit<H>,
    data: D,
) -> (unit: SignedUnit<H, D, K::Signature>)
    requires
        pre_unit.deep_view().coord.creator == keychain.node(),
    ensures
        packed::<H, D, K>(
            *keychain,
            session_id,
            pre_unit.deep_view(),
            data.deep_view(),
            unit.deep_view(),
        ),
{
    let full_unit: FullUnit<H, D> = FullUnit::new(pre_unit, Some(data), session_id);
    Signed::sign(full_unit, keychain)
}

/// What happens to the packing of units.
pub enum Event<H: Hasher, D: Data> {
    /// A unit without data has come in, or no more will.
    PreUnit(Option<PreUnit<H>>),
    /// Data has come in.
    Data(D),
    /// The signed unit has been handed over, or that has failed.
    Sent(bool),
}

/// What has to be done next.
pub enum Decision<H: Hasher, D: Data, S: Data> {
    /// Wait for a unit without data.
    AwaitPreUnit,
    /// Wait for data.
    AwaitData,
    /// Hand over a signed unit.
    Send(SignedUnit<H, D, S>),
    /// Stop, as something went wrong.
    Stop,
}

/// Packs units: waits for a unit, then for the data that goes into it.
pub struct Packer<'a, H: Hasher, K: Keychain> {
    keychain: &'a K,
    session_id: SessionId,
    waiting: Option<PreUnit<H>>,
}

impl<'a, H: Hasher, K: Keychain> Packer<'a, H, K> {
    /// The keys that units are signed with.
    pub closed spec fn keys(&self) -> K {
        *self.keychain
    }

    /// The session of the units.
    pub closed spec fn session(&self) -> SessionId {
        self.session_id
    }

    /// The unit that waits for its data.
    pub closed spec fn waiting(&self) -> Option<PreUnitView<HashOf<H>>> {
        self.waiting.deep_view()
    }

    /// A unit that waits is ours.
    pub open spec fn wf(&self) -> bool {
        self.waiting() matches Some(pre_unit) ==> pre_unit.coord.creator == self.keys().node()
    }

    pub fn new(keychain: &'a K, session_id: SessionId) -> (result: Self)
        ensures
            result.wf(),
            result.keys() == *keychain,
            result.session() == session_id,
            result.waiting() is None,
    {
        Packer { keychain, session_id, waiting: None }
    }

    pub fn index(&self) -> (index: NodeIndex)
        ensures
            index == self.keys().node(),
    {
        self.keychain.index()
    }

    /// What to do after an event.
    pub fn on_event<D: Data>(&mut self, event: Event<H, D>) -> (decision: Decision<
        H,
        D,
        K::Signature,
    >)
        requires
            old(self).wf(),
            event matches Event::PreUnit(Some(pre_unit)) ==> pre_unit.deep_view().coord.creator
                == old(self).keys().node(),
        ensures
            final(self).wf(),
            final(self).keys() == old(self).keys(),
            final(self).session() == old(self).session(),
            match event {
                Event::PreUnit(Some(pre_unit)) => {
                    &&& decision is AwaitData
                    &&& final(self).waiting() == Some(pre_unit.deep_view())
                },
                Event::PreUnit(None) => decision is Stop && final(self).waiting() is None,
                Event::Data(data) => {
                    &&& final(self).waiting() is None
                    &&& match old(self).waiting() {
                        Some(pre_unit) => decision matches Decision::Send(unit) && packed::<
                            H,
                            D,
                            K,
                        >(
                            old(self).keys(),
                            old(self).session(),
                            pre_unit,
                            data.deep_view(),
                            unit.deep_view(),
                        ),
                        None => decision is AwaitPreUnit,
                    }
                },
                Event::Sent(ok) => {
                    &&& final(self).waiting() is None
                    &&& if ok {
                        decision is AwaitPreUnit
                    } else {
                        decision is Stop
                    }
                },
            },
    {
        let mut waiting: Option<PreUnit<H>> = None;
        std::mem::swap(&mut waiting, &mut self.waiting);
        match event {
            Event::PreUnit(Some(pre_unit)) => {
                self.waiting = Some(pre_unit);
                Decision::AwaitData
            },
            Event::PreUnit(None) => Decision::Stop,
            Event::Data(data) => match waiting {
                Some(pre_unit) => Decision::Send(
                    pack(self.keychain, self.session_id, pre_unit, data),
                ),
                None => Decision::AwaitPreUnit,
            },
            Event::Sent(ok) => if ok {
                Decision::AwaitPreUnit
            } else {
                Decision::Stop
            },
        }
    }
}

} // verus!
