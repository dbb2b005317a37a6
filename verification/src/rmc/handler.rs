//! Keeping track of the signatures under each hash.
use crate::collections::VecMap;
use crate::crypto::{
    same_multi_keys, MultiKeychain, PartialMultisignature, PartialOf, Signable, SignatureOf,
};
use crate::data::Data;
use crate::signed;
use crate::signed::{
    Indexed, IndexedView, Multisigned, PartialView, PartiallyMultisigned, SignatureError, Signed,
    SignedView, UncheckedSigned,
};
use vstd::prelude::*;

verus! {

/// The multisignatures, complete or not, under each hash.
pub type States<T, MK> = Map<
    <T as DeepView>::V,
    PartialView<<T as DeepView>::V, PartialOf<MK>>,
>;

/// Every multisignature is kept under the hash that it signs.
pub open spec fn keyed<T: Data, MK: MultiKeychain>(states: States<T, MK>) -> bool {
    forall|hash: T::V| #[trigger]
        states.contains_key(hash) ==> states[hash].content.signable == hash
}

/// The multisignature under a hash once one more signature has come in.
pub open spec fn extended<T: Data + Signable, MK: MultiKeychain>(
    keychain: MK,
    states: States<T, MK>,
    signed: SignedView<IndexedView<T::V>, SignatureOf<MK>>,
) -> PartialView<T::V, PartialOf<MK>> {
    let hash = signed.signable.signable;
    let signature = if states.contains_key(hash) {
        MK::PartialMultisignature::with_signature(
            states[hash].content.signature,
            signed.signature,
            signed.signable.index,
        )
    } else {
        keychain.started(signed.signature, signed.signable.index)
    };
    PartialView {
        content: SignedView { signable: hash, signature },
        complete: keychain.completes(T::message_of(hash), signature),
    }
}

/// Whether the multisignature under a hash is complete.
pub open spec fn completed<T: Data, MK: MultiKeychain>(states: States<T, MK>, hash: T::V) -> bool {
    states.contains_key(hash) && states[hash].complete
}

/// A correct signature comes in: the states that follow and the multisignature, if it is complete
/// now and was not before.
pub open spec fn signature_added<T: Data + Signable, MK: MultiKeychain>(
    keychain: MK,
    states: States<T, MK>,
    signed: SignedView<IndexedView<T::V>, SignatureOf<MK>>,
) -> (States<T, MK>, Option<SignedView<T::V, PartialOf<MK>>>) {
    let hash = signed.signable.signable;
    if completed::<T, MK>(states, hash) {
        (states, None)
    } else {
        let after = extended::<T, MK>(keychain, states, signed);
        (
            states.insert(hash, after),
            if after.complete {
                Some(after.content)
            } else {
                None
            },
        )
    }
}

/// The states once correct signatures have come in one after another.
pub open spec fn all_added<T: Data + Signable, MK: MultiKeychain>(
    keychain: MK,
    states: States<T, MK>,
    signed: Seq<SignedView<IndexedView<T::V>, SignatureOf<MK>>>,
) -> States<T, MK>
    decreases signed.len(),
{
    if signed.len() == 0 {
        states
    } else {
        let before = all_added::<T, MK>(keychain, states, signed.drop_last());
        signature_added::<T, MK>(keychain, before, signed.last()).0
    }
}

/// What to do when a multicast is started.
pub enum OnStartRmcResponse<T, S, P> {
    /// Send the own signature.
    SignedHash(Signed<Indexed<T>, S>),
    /// Send the multisignature that the own signature has completed.
    MultisignedHash(Multisigned<T, P>),
    /// Nothing, the multisignature was complete already.
    Noop,
}

/// The model of what to do when a multicast is started.
pub enum OnStartRmcView<T, S, P> {
    SignedHash(SignedView<IndexedView<T>, S>),
    MultisignedHash(SignedView<T, P>),
    Noop,
}

impl<T: DeepView, S: DeepView, P: DeepView> DeepView for OnStartRmcResponse<T, S, P> {
    type V = OnStartRmcView<T::V, S::V, P::V>;

    open spec fn deep_view(&self) -> OnStartRmcView<T::V, S::V, P::V> {
        match self {
            OnStartRmcResponse::SignedHash(signed) => OnStartRmcView::SignedHash(
                signed.deep_view(),
            ),
            OnStartRmcResponse::MultisignedHash(multisigned) => OnStartRmcView::MultisignedHash(
                multisigned.deep_view(),
            ),
            OnStartRmcResponse::Noop => OnStartRmcView::Noop,
        }
    }
}

/// A hash with a signature of our own.
pub open spec fn own_signature<T: Data, MK: MultiKeychain>(
    keychain: MK,
    hash: T::V,
    signature: SignatureOf<MK>,
) -> SignedView<IndexedView<T::V>, SignatureOf<MK>> {
    SignedView { signable: IndexedView { signable: hash, index: keychain.node() }, signature }
}

/// A multicast is started with the given signature of our own: nothing happens if the
/// multisignature is complete already, otherwise the signature is added, and either it or the
/// multisignature that it completes is to be sent.
pub open spec fn multicast_started<T: Data + Signable, MK: MultiKeychain>(
    keychain: MK,
    before: States<T, MK>,
    after: States<T, MK>,
    hash: T::V,
    response: OnStartRmcView<T::V, SignatureOf<MK>, PartialOf<MK>>,
    signature: SignatureOf<MK>,
) -> bool {
    let signed = own_signature::<T, MK>(keychain, hash, signature);
    if completed::<T, MK>(before, hash) {
        after == before && response == OnStartRmcView::<
            T::V,
            SignatureOf<MK>,
            PartialOf<MK>,
        >::Noop
    } else {
        let (states, multisigned) = signature_added::<T, MK>(keychain, before, signed);
        &&& keychain.signs(T::message_of(hash), signature)
        &&& after == states
        &&& response == (match multisigned {
            Some(multisigned) => OnStartRmcView::MultisignedHash(multisigned),
            None => OnStartRmcView::SignedHash(signed),
        })
    }
}

/// The same keys start multicasts in the same way.
pub proof fn lemma_same_multicast_started<T: Data + Signable, MK: MultiKeychain>(
    one: MK,
    other: MK,
    before: States<T, MK>,
    after: States<T, MK>,
    hash: T::V,
    response: OnStartRmcView<T::V, SignatureOf<MK>, PartialOf<MK>>,
    signature: SignatureOf<MK>,
)
    requires
        same_multi_keys(one, other),
    ensures
        multicast_started::<T, MK>(one, before, after, hash, response, signature)
            == multicast_started::<T, MK>(other, before, after, hash, response, signature),
{
    let signed = own_signature::<T, MK>(one, hash, signature);
    assert(signed == own_signature::<T, MK>(other, hash, signature));
    assert(extended::<T, MK>(one, before, signed) == extended::<T, MK>(other, before, signed));
}

/// Collects signatures under hashes.
pub struct Handler<T: Data + Signable, MK: MultiKeychain> {
    keychain: MK,
    hash_states: VecMap<T, PartiallyMultisigned<T, MK::PartialMultisignature>>,
}

impl<T: Data + Signable, MK: MultiKeychain> Handler<T, MK> {
    /// The multisignatures under each hash.
    pub closed spec fn states(&self) -> States<T, MK> {
        self.hash_states.deep_view()
    }

    /// The keys that signatures are checked with.
    pub closed spec fn keys(&self) -> MK {
        self.keychain
    }

    /// Every multisignature is kept under the hash that it signs.
    pub open spec fn wf(&self) -> bool {
        keyed::<T, MK>(self.states())
    }

    pub fn new(keychain: MK) -> (result: Self)
        ensures
            result.wf(),
            result.keys() == keychain,
            result.states() == Map::<T::V, PartialView<T::V, PartialOf<MK>>>::empty(),
    {
        Handler { keychain, hash_states: VecMap::new() }
    }

    /// Whether the multisignature under a hash is complete.
    pub fn already_completed(&self, hash: &T) -> (result: bool)
        ensures
            result == completed::<T, MK>(self.states(), hash.deep_view()),
    {
        match self.hash_states.get(hash) {
            Some(state) => state.is_complete(),
            None => false,
        }
    }

    fn handle_signed_hash(&mut self, signed: Signed<Indexed<T>, MK::Signature>) -> (result: Option<
        Multisigned<T, MK::PartialMultisignature>,
    >)
        requires
            old(self).wf(),
            !completed::<T, MK>(old(self).states(), signed.deep_view().signable.signable),
        ensures
            final(self).wf(),
            final(self).keys() == old(self).keys(),
            (final(self).states(), result_view::<T, MK>(result)) == signature_added::<T, MK>(
                old(self).keys(),
                old(self).states(),
                signed.deep_view(),
            ),
    {
        let ghost before = self.states();
        let hash: T = signed.as_signable().as_signable().copy();
        let ghost h = hash.deep_view();
        let new_state: PartiallyMultisigned<T, MK::PartialMultisignature> =
            match self.hash_states.remove(&hash) {
            None => PartiallyMultisigned::sign(signed, &self.keychain),
            Some(partial) => {
                proof {
                    assert(before.contains_key(h));
                    assert(before[h] == partial.deep_view());
                }
                partial.add_signature(signed, &self.keychain)
            },
        };
        let ghost added = new_state.deep_view();
        proof {
            assert(added == extended::<T, MK>(self.keychain, before, signed.deep_view()));
            assert(before.remove(h).insert(h, added) =~= before.insert(h, added));
        }
        match new_state {
            PartiallyMultisigned::Complete(multisigned) => {
                self.hash_states.insert(
                    hash,
                    PartiallyMultisigned::Complete(multisigned.copy()),
                );
                Some(multisigned)
            },
            PartiallyMultisigned::Incomplete(unchecked) => {
                self.hash_states.insert(hash, PartiallyMultisigned::Incomplete(unchecked));
                None
            },
        }
    }

    /// Puts in the own signature.
    pub fn on_start_rmc(&mut self, hash: T) -> (result: OnStartRmcResponse<
        T,
        MK::Signature,
        MK::PartialMultisignature,
    >)
        requires
            old(self).wf(),
        ensures
            final(self).wf(),
            final(self).keys() == old(self).keys(),
            exists|signature: SignatureOf<MK>| #[trigger]
                multicast_started::<T, MK>(
                    old(self).keys(),
                    old(self).states(),
                    final(self).states(),
                    hash.deep_view(),
                    result.deep_view(),
                    signature,
                ),
    {
        let ghost h = hash.deep_view();
        let ghost before = self.states();
        if self.already_completed(&hash) {
            let result: OnStartRmcResponse<T, MK::Signature, MK::PartialMultisignature> =
                OnStartRmcResponse::Noop;
            proof {
                assert(multicast_started::<T, MK>(
                    self.keys(),
                    before,
                    self.states(),
                    h,
                    result.deep_view(),
                    arbitrary(),
                ));
            }
            return result;
        }
        let signed: Signed<Indexed<T>, MK::Signature> = Signed::sign_with_index(
            hash,
            &self.keychain,
        );
        let ghost view = signed.deep_view();
        let result: OnStartRmcResponse<T, MK::Signature, MK::PartialMultisignature> =
            match self.handle_signed_hash(signed.copy()) {
            Some(multisigned) => OnStartRmcResponse::MultisignedHash(multisigned),
            None => OnStartRmcResponse::SignedHash(signed),
        };
        proof {
            assert(view == own_signature::<T, MK>(self.keychain, h, view.signature));
            assert(multicast_started::<T, MK>(
                self.keychain,
                before,
                self.states(),
                h,
                result.deep_view(),
                view.signature,
            ));
        }
        result
    }

    /// A signature comes in: an error if it is wrong, the multisignature if it is complete now.
    pub fn on_signed_hash(&mut self, unchecked: UncheckedSigned<Indexed<T>, MK::Signature>) -> (result:
        Result<
        Option<Multisigned<T, MK::PartialMultisignature>>,
        SignatureError<Indexed<T>, MK::Signature>,
    >)
        requires
            old(self).wf(),
        ensures
            final(self).wf(),
            final(self).keys() == old(self).keys(),
            match result {
                Ok(multisigned) => {
                    &&& signed::signed_by_owner::<Indexed<T>, MK>(
                        old(self).keys(),
                        unchecked.deep_view(),
                    )
                    &&& (final(self).states(), result_view::<T, MK>(multisigned))
                        == signature_added::<T, MK>(
                        old(self).keys(),
                        old(self).states(),
                        unchecked.deep_view(),
                    )
                },
                Err(e) => {
                    &&& !signed::signed_by_owner::<Indexed<T>, MK>(
                        old(self).keys(),
                        unchecked.deep_view(),
                    )
                    &&& e.unchecked.deep_view() == unchecked.deep_view()
                    &&& final(self).states() == old(self).states()
                },
            },
    {
        let signed: Signed<Indexed<T>, MK::Signature> = match unchecked.check(&self.keychain) {
            Ok(signed) => signed,
            Err(e) => {
                return Err(e);
            },
        };
        if self.already_completed(signed.as_signable().as_signable()) {
            return Ok(None);
        }
        Ok(self.handle_signed_hash(signed))
    }

    /// A whole multisignature comes in: an error if it is not complete, itself if it is news.
    pub fn on_multisigned_hash(
        &mut self,
        unchecked: UncheckedSigned<T, MK::PartialMultisignature>,
    ) -> (result: Result<
        Option<Multisigned<T, MK::PartialMultisignature>>,
        SignatureError<T, MK::PartialMultisignature>,
    >)
        requires
            old(self).wf(),
        ensures
            final(self).wf(),
            final(self).keys() == old(self).keys(),
            ({
                let content = unchecked.deep_view();
                let hash = content.signable;
                let correct = old(self).keys().completes(T::message_of(hash), content.signature);
                match result {
                    Ok(None) => completed::<T, MK>(old(self).states(), hash) && final(self).states() == old(self).states(),
                    Ok(Some(multisigned)) => {
                        &&& !completed::<T, MK>(old(self).states(), hash)
                        &&& correct
                        &&& multisigned.deep_view() == content
                        &&& final(self).states() == old(self).states().insert(
                            hash,
                            PartialView { content, complete: true },
                        )
                    },
                    Err(e) => {
                        &&& !completed::<T, MK>(old(self).states(), hash)
                        &&& !correct
                        &&& e.unchecked.deep_view() == content
                        &&& final(self).states() == old(self).states()
                    },
                }
            }),
    {
        if self.already_completed(unchecked.as_signable()) {
            return Ok(None);
        }
        let multisigned: Multisigned<T, MK::PartialMultisignature> = match unchecked.check_multi(
            &self.keychain,
        ) {
            Ok(multisigned) => multisigned,
            Err(e) => {
                return Err(e);
            },
        };
        let hash: T = multisigned.as_signable().copy();
        self.hash_states.insert(hash, PartiallyMultisigned::Complete(multisigned.copy()));
        Ok(Some(multisigned))
    }
}

/// The model of an optional multisignature.
pub open spec fn result_view<T: Data, MK: MultiKeychain>(
    result: Option<Multisigned<T, MK::PartialMultisignature>>,
) -> Option<SignedView<T::V, PartialOf<MK>>> {
    match result {
        Some(multisigned) => Some(multisigned.deep_view()),
        None => None,
    }
}

/// Nothing is announced twice: once the multisignature under a hash is complete, no signature
/// under that hash changes anything.
pub proof fn law_announced_once<T: Data + Signable, MK: MultiKeychain>(
    keychain: MK,
    states: States<T, MK>,
    signed: SignedView<IndexedView<T::V>, SignatureOf<MK>>,
    later: SignedView<IndexedView<T::V>, SignatureOf<MK>>,
)
    requires
        signature_added::<T, MK>(keychain, states, signed).1 is Some,
        later.signable.signable == signed.signable.signable,
    ensures
        ({
            let after = signature_added::<T, MK>(keychain, states, signed).0;
            signature_added::<T, MK>(keychain, after, later) == (
                after,
                None::<SignedView<T::V, PartialOf<MK>>>,
            )
        }),
{
}

/// What is announced is complete.
pub proof fn law_announced_complete<T: Data + Signable, MK: MultiKeychain>(
    keychain: MK,
    states: States<T, MK>,
    signed: SignedView<IndexedView<T::V>, SignatureOf<MK>>,
)
    ensures
        signature_added::<T, MK>(keychain, states, signed).1 matches Some(multisigned)
            ==> multisigned.signable == signed.signable.signable && keychain.completes(
            T::message_of(multisigned.signable),
            multisigned.signature,
        ),
{
}

/// A correct signature under a hash whose multisignature is not complete is never lost: it starts
/// the multisignature or is added to what is there, under the index that it names. The
/// multisignature is announced exactly if it is complete then. Other hashes are not touched.
pub proof fn law_signature_counts<T: Data + Signable, MK: MultiKeychain>(
    keychain: MK,
    states: States<T, MK>,
    signed: SignedView<IndexedView<T::V>, SignatureOf<MK>>,
)
    ensures
        ({
            let (after, announced) = signature_added::<T, MK>(keychain, states, signed);
            let hash = signed.signable.signable;
            let index = signed.signable.index;
            let kept = after[hash].content.signature;
            let complete = keychain.completes(T::message_of(hash), kept);
            &&& after.contains_key(hash)
            &&& states.contains_key(hash) && states[hash].complete ==> after == states
                && announced is None
            &&& !(states.contains_key(hash) && states[hash].complete) ==> {
                &&& after[hash].content.signable == hash
                &&& states.contains_key(hash) ==> kept
                    == MK::PartialMultisignature::with_signature(
                    states[hash].content.signature,
                    signed.signature,
                    index,
                )
                &&& !states.contains_key(hash) ==> kept == keychain.started(
                    signed.signature,
                    index,
                )
                &&& after[hash].complete == complete
                &&& announced is Some <==> complete
                &&& announced matches Some(multisigned) ==> multisigned.signable == hash
                    && multisigned.signature == kept
            }
            &&& forall|other: T::V|
                other != hash ==> (#[trigger] after.contains_key(other) == states.contains_key(
                    other,
                )) && (states.contains_key(other) ==> after[other] == states[other])
        }),
{
}

/// Starting a multicast makes our own signature count like any other. It is our signature that is to
/// be sent, unless it completes the multisignature, which is to be sent then; once that is complete,
/// starting again does nothing.
pub proof fn law_own_signature_counts<T: Data + Signable, MK: MultiKeychain>(
    keychain: MK,
    before: States<T, MK>,
    after: States<T, MK>,
    hash: T::V,
    response: OnStartRmcView<T::V, SignatureOf<MK>, PartialOf<MK>>,
    signature: SignatureOf<MK>,
)
    requires
        multicast_started::<T, MK>(keychain, before, after, hash, response, signature),
    ensures
        ({
            let own = SignedView {
                signable: IndexedView { signable: hash, index: keychain.node() },
                signature,
            };
            let complete = before.contains_key(hash) && before[hash].complete;
            &&& complete <==> response is Noop
            &&& complete ==> after == before
            &&& !complete ==> {
                &&& keychain.signs(T::message_of(hash), signature)
                &&& after == signature_added::<T, MK>(keychain, before, own).0
                &&& after.contains_key(hash)
                &&& response is MultisignedHash <==> after[hash].complete
                &&& response matches OnStartRmcView::SignedHash(signed) ==> signed == own
                &&& response matches OnStartRmcView::MultisignedHash(multisigned) ==> multisigned
                    == after[hash].content
            }
        }),
{
}

} // verus!
