//! Values with signatures under them.
use crate::codec_error::CodecError;
use crate::crypto::{Index, Keychain, MultiKeychain, PartialMultisignature, Signable};
use crate::data::{
    behind, lemma_both_encoded, no_encoding, part_failure, skip_part, Data, Encoding,
};
use crate::nodes::NodeIndex;
use vstd::prelude::*;
use vstd::string::StringExecFns;

verus! {

/// The model of a value with a signature, checked or not.
pub struct SignedView<T, S> {
    pub signable: T,
    pub signature: S,
}

/// A value with a signature that nobody has checked.
pub struct UncheckedSigned<T, S> {
    signable: T,
    signature: S,
}

impl<T: DeepView, S: DeepView> DeepView for UncheckedSigned<T, S> {
    type V = SignedView<T::V, S::V>;

    closed spec fn deep_view(&self) -> SignedView<T::V, S::V> {
        SignedView { signable: self.signable.deep_view(), signature: self.signature.deep_view() }
    }
}

/// A value whose signature did not pass the check.
pub struct SignatureError<T, S> {
    pub unchecked: UncheckedSigned<T, S>,
}

/// Whether the signature is one of the member that the value belongs to.
pub open spec fn signed_by_owner<T: Signable + Index, K: Keychain>(
    keychain: K,
    v: SignedView<T::V, <K::Signature as DeepView>::V>,
) -> bool {
    keychain.verifies(T::message_of(v.signable), v.signature, T::index_of(v.signable))
}

impl<T: DeepView, S: DeepView> UncheckedSigned<T, S> {
    /// Claims that this is the signature.
    pub fn new(signable: T, signature: S) -> (result: Self)
        ensures
            result.deep_view() == (SignedView {
                signable: signable.deep_view(),
                signature: signature.deep_view(),
            }),
    {
        UncheckedSigned { signable, signature }
    }

    pub fn as_signable(&self) -> (signable: &T)
        ensures
            signable.deep_view() == self.deep_view().signable,
    {
        &self.signable
    }

    pub fn into_signable(self) -> (signable: T)
        ensures
            signable.deep_view() == self.deep_view().signable,
    {
        self.signable
    }

    pub fn signature(&self) -> (signature: &S)
        ensures
            signature.deep_view() == self.deep_view().signature,
    {
        &self.signature
    }
}

impl<T: Signable + Index, S: Data> UncheckedSigned<T, S> {
    /// Checks that the member that the value belongs to has signed it.
    pub fn check<K: Keychain<Signature = S>>(self, keychain: &K) -> (result: Result<
        Signed<T, S>,
        SignatureError<T, S>,
    >)
        ensures
            match result {
                Ok(signed) => {
                    &&& signed_by_owner::<T, K>(*keychain, self.deep_view())
                    &&& signed.deep_view() == self.deep_view()
                },
                Err(e) => {
                    &&& !signed_by_owner::<T, K>(*keychain, self.deep_view())
                    &&& e.unchecked.deep_view() == self.deep_view()
                },
            },
    {
        let message: Vec<u8> = self.signable.message();
        let index: NodeIndex = self.signable.index();
        if keychain.verify(&message, &self.signature, index) {
            Ok(Signed { unchecked: self })
        } else {
            Err(SignatureError { unchecked: self })
        }
    }
}

impl<T: Signable, S: Data> UncheckedSigned<T, S> {
    /// Checks that the multisignature is complete.
    pub fn check_multi<MK: MultiKeychain<PartialMultisignature = S>>(self, keychain: &MK) -> (result:
        Result<Multisigned<T, S>, SignatureError<T, S>>)
        ensures
            match result {
                Ok(multisigned) => {
                    &&& keychain.completes(
                        T::message_of(self.deep_view().signable),
                        self.deep_view().signature,
                    )
                    &&& multisigned.deep_view() == self.deep_view()
                },
                Err(e) => {
                    &&& !keychain.completes(
                        T::message_of(self.deep_view().signable),
                        self.deep_view().signature,
                    )
                    &&& e.unchecked.deep_view() == self.deep_view()
                },
            },
    {
        let message: Vec<u8> = self.signable.message();
        if keychain.is_complete(&message, &self.signature) {
            Ok(Multisigned { unchecked: self })
        } else {
            Err(SignatureError { unchecked: self })
        }
    }
}

impl<T: Encoding, S: Encoding> Encoding for UncheckedSigned<T, S> {
    open spec fn valid(v: SignedView<T::V, S::V>) -> bool {
        <(T, S)>::valid(
            (v.signable, v.signature),
        )
    }

    open spec fn encoded(v: SignedView<T::V, S::V>) -> Seq<u8> {
        <(T, S)>::encoded(
            (v.signable, v.signature),
        )
    }

    open spec fn failure(bytes: Seq<u8>) -> Seq<Seq<char>> {
        if no_encoding::<T>(bytes) {
            part_failure::<T>(
                "Could not decode `UncheckedSigned::signable`"@,
                bytes,
            )
        } else {
            let behind_signable = behind::<T>(bytes);
            part_failure::<S>(
                "Could not decode `UncheckedSigned::signature`"@,
                behind_signable,
            )
        }
    }

    open spec fn in_bulk() -> bool {
        false
    }

    open spec fn shown(v: SignedView<T::V, S::V>) -> Seq<char> {
        "UncheckedSigned { signable: "@ + T::shown(v.signable)
            + ", signature: "@ + S::shown(v.signature) + " }"@
    }
}

impl<T: Data, S: Data> Data for UncheckedSigned<T, S> {
    proof fn lemma_valid(&self) {
        self.signable.lemma_valid();
        self.signature.lemma_valid();
    }

    proof fn lemma_prefix_free(
        v: SignedView<T::V, S::V>,
        w: SignedView<T::V, S::V>,
        bytes: Seq<u8>,
    ) {
        <(T, S)>::lemma_prefix_free(
            (v.signable, v.signature),
            (w.signable, w.signature),
            bytes,
        );
    }

    fn copy(&self) -> (other: Self) {
        UncheckedSigned {
            signable: self.signable.copy(),
            signature: self.signature.copy(),
        }
    }

    fn equals(&self, other: &Self) -> (equal: bool) {
        self.signable.equals(&other.signable)
            && self.signature.equals(&other.signature)
    }

    fn encode_to(&self, out: &mut Vec<u8>) {
        let ghost start = out@;
        self.signable.encode_to(out);
        self.signature.encode_to(out);
        proof {
            assert(out@ =~= start + Self::encoded(self.deep_view()));
        }
    }

    fn decode(input: &Vec<u8>, pos: usize) -> (result: Option<(Self, usize)>) {
        match <(T, S)>::decode(
            input,
            pos,
        ) {
            Some(((signable, signature), end)) => {
                Some((UncheckedSigned { signable, signature }, end))
            },
            None => {
                proof {
                    let rest = input@.skip(pos as int);
                    assert forall|v: SignedView<T::V, S::V>| Self::valid(v) implies !(
                    #[trigger] Self::encoded(v)).is_prefix_of(rest) by {
                        assert(!<(T, S)>::encoded(
                            (v.signable, v.signature),
                        ).is_prefix_of(rest));
                    }
                }
                None
            },
        }
    }

    fn explain(input: &Vec<u8>, pos: usize) -> (error: CodecError) {
        let ghost rest = input@.skip(pos as int);
        let behind_signable: usize = match skip_part::<T>(
            input,
            pos,
            "Could not decode `UncheckedSigned::signable`",
        ) {
            Ok(end) => end,
            Err(error) => {
                return error;
            },
        };
        match skip_part::<S>(
            input,
            behind_signable,
            "Could not decode `UncheckedSigned::signature`",
        ) {
            Err(error) => error,
            Ok(_) => {
                proof {
                    lemma_both_encoded::<T, S>(rest);
                    let t = choose|t: <(T, S) as DeepView>::V|
                        <(T, S)>::valid(t) && (#[trigger] <(T, S)>::encoded(
                            t,
                        )).is_prefix_of(rest);
                    assert(Self::encoded(
                        SignedView { signable: t.0, signature: t.1 },
                    ).is_prefix_of(rest));
                }
                CodecError::new(String::new())
            },
        }
    }

    fn reads_in_bulk() -> (bulk: bool) {
        false
    }

    fn show(&self, out: &mut String) {
        let ghost start = out@;
        out.append("UncheckedSigned { signable: ");
        self.signable.show(out);
        out.append(", signature: ");
        self.signature.show(out);
        out.append(" }");
        proof {
            assert(out@ =~= start + Self::shown(self.deep_view()));
        }
    }
}

/// A value with a signature by the member that it belongs to.
pub struct Signed<T, S> {
    unchecked: UncheckedSigned<T, S>,
}

impl<T: DeepView, S: DeepView> DeepView for Signed<T, S> {
    type V = SignedView<T::V, S::V>;

    closed spec fn deep_view(&self) -> SignedView<T::V, S::V> {
        self.unchecked.deep_view()
    }
}

impl<T: DeepView, S: DeepView> Signed<T, S> {
    pub fn as_signable(&self) -> (signable: &T)
        ensures
            signable.deep_view() == self.deep_view().signable,
    {
        self.unchecked.as_signable()
    }

    pub fn into_signable(self) -> (signable: T)
        ensures
            signable.deep_view() == self.deep_view().signable,
    {
        self.unchecked.into_signable()
    }

    /// Forgets that the signature was checked.
    pub fn into_unchecked(self) -> (unchecked: UncheckedSigned<T, S>)
        ensures
            unchecked.deep_view() == self.deep_view(),
    {
        self.unchecked
    }
}

impl<T: Data, S: Data> Signed<T, S> {
    pub fn copy(&self) -> (other: Self)
        ensures
            other.deep_view() == self.deep_view(),
    {
        Signed { unchecked: self.unchecked.copy() }
    }
}

impl<T: Signable + Index, S: Data> Signed<T, S> {
    /// Signs a value that belongs to the owner of the keychain.
    pub fn sign<K: Keychain<Signature = S>>(signable: T, keychain: &K) -> (result: Self)
        requires
            T::index_of(signable.deep_view()) == keychain.node(),
        ensures
            result.deep_view().signable == signable.deep_view(),
            keychain.signs(
                T::message_of(signable.deep_view()),
                result.deep_view().signature,
            ),
    {
        let message: Vec<u8> = signable.message();
        let signature: S = keychain.sign(&message);
        Signed { unchecked: UncheckedSigned { signable, signature } }
    }
}

/// The model of a value with an index.
pub struct IndexedView<T> {
    pub signable: T,
    pub index: NodeIndex,
}

/// A value with the index of the member who signs it.
pub struct Indexed<T> {
    signable: T,
    index: NodeIndex,
}

impl<T: DeepView> DeepView for Indexed<T> {
    type V = IndexedView<T::V>;

    closed spec fn deep_view(&self) -> IndexedView<T::V> {
        IndexedView { signable: self.signable.deep_view(), index: self.index }
    }
}

impl<T: DeepView> Indexed<T> {
    pub fn new(signable: T, index: NodeIndex) -> (result: Self)
        ensures
            result.deep_view() == (IndexedView { signable: signable.deep_view(), index }),
    {
        Indexed { signable, index }
    }

    pub fn as_signable(&self) -> (signable: &T)
        ensures
            signable.deep_view() == self.deep_view().signable,
    {
        &self.signable
    }

    pub fn into_signable(self) -> (signable: T)
        ensures
            signable.deep_view() == self.deep_view().signable,
    {
        self.signable
    }
}

impl<T: Signable> Signable for Indexed<T> {
    open spec fn message_of(v: IndexedView<T::V>) -> Seq<u8> {
        T::message_of(v.signable)
    }

    fn message(&self) -> (message: Vec<u8>) {
        self.signable.message()
    }
}

impl<T: DeepView> Index for Indexed<T> {
    open spec fn index_of(v: IndexedView<T::V>) -> NodeIndex {
        v.index
    }

    fn index(&self) -> (index: NodeIndex) {
        self.index
    }
}

impl<T: Encoding> Encoding for Indexed<T> {
    open spec fn valid(v: IndexedView<T::V>) -> bool {
        <(T, NodeIndex)>::valid(
            (v.signable, v.index),
        )
    }

    open spec fn encoded(v: IndexedView<T::V>) -> Seq<u8> {
        <(T, NodeIndex)>::encoded(
            (v.signable, v.index),
        )
    }

    open spec fn failure(bytes: Seq<u8>) -> Seq<Seq<char>> {
        if no_encoding::<T>(bytes) {
            part_failure::<T>(
                "Could not decode `Indexed::signable`"@,
                bytes,
            )
        } else {
            let behind_signable = behind::<T>(bytes);
            part_failure::<NodeIndex>(
                "Could not decode `Indexed::index`"@,
                behind_signable,
            )
        }
    }

    open spec fn in_bulk() -> bool {
        false
    }

    open spec fn shown(v: IndexedView<T::V>) -> Seq<char> {
        "Indexed { signable: "@ + T::shown(v.signable)
            + ", index: "@ + NodeIndex::shown(v.index) + " }"@
    }
}

impl<T: Data> Data for Indexed<T> {
    proof fn lemma_valid(&self) {
        self.signable.lemma_valid();
        self.index.lemma_valid();
    }

    proof fn lemma_prefix_free(
        v: IndexedView<T::V>,
        w: IndexedView<T::V>,
        bytes: Seq<u8>,
    ) {
        <(T, NodeIndex)>::lemma_prefix_free(
            (v.signable, v.index),
            (w.signable, w.index),
            bytes,
        );
    }

    fn copy(&self) -> (other: Self) {
        Indexed {
            signable: self.signable.copy(),
            index: self.index.copy(),
        }
    }

    fn equals(&self, other: &Self) -> (equal: bool) {
        self.signable.equals(&other.signable)
            && self.index.equals(&other.index)
    }

    fn encode_to(&self, out: &mut Vec<u8>) {
        let ghost start = out@;
        self.signable.encode_to(out);
        self.index.encode_to(out);
        proof {
            assert(out@ =~= start + Self::encoded(self.deep_view()));
        }
    }

    fn decode(input: &Vec<u8>, pos: usize) -> (result: Option<(Self, usize)>) {
        match <(T, NodeIndex)>::decode(
            input,
            pos,
        ) {
            Some(((signable, index), end)) => {
                Some((Indexed { signable, index }, end))
            },
            None => {
                proof {
                    let rest = input@.skip(pos as int);
                    assert forall|v: IndexedView<T::V>| Self::valid(v) implies !(
                    #[trigger] Self::encoded(v)).is_prefix_of(rest) by {
                        assert(!<(T, NodeIndex)>::encoded(
                            (v.signable, v.index),
                        ).is_prefix_of(rest));
                    }
                }
                None
            },
        }
    }

    fn explain(input: &Vec<u8>, pos: usize) -> (error: CodecError) {
        let ghost rest = input@.skip(pos as int);
        let behind_signable: usize = match skip_part::<T>(
            input,
            pos,
            "Could not decode `Indexed::signable`",
        ) {
            Ok(end) => end,
            Err(error) => {
                return error;
            },
        };
        match skip_part::<NodeIndex>(
            input,
            behind_signable,
            "Could not decode `Indexed::index`",
        ) {
            Err(error) => error,
            Ok(_) => {
                proof {
                    lemma_both_encoded::<T, NodeIndex>(rest);
                    let t = choose|t: <(T, NodeIndex) as DeepView>::V|
                        <(T, NodeIndex)>::valid(t) && (#[trigger] <(T, NodeIndex)>::encoded(
                            t,
                        )).is_prefix_of(rest);
                    assert(Self::encoded(
                        IndexedView { signable: t.0, index: t.1 },
                    ).is_prefix_of(rest));
                }
                CodecError::new(String::new())
            },
        }
    }

    fn reads_in_bulk() -> (bulk: bool) {
        false
    }

    fn show(&self, out: &mut String) {
        let ghost start = out@;
        out.append("Indexed { signable: ");
        self.signable.show(out);
        out.append(", index: ");
        self.index.show(out);
        out.append(" }");
        proof {
            assert(out@ =~= start + Self::shown(self.deep_view()));
        }
    }
}

impl<T: Signable, S: Data> Signed<Indexed<T>, S> {
    /// Signs a value, which then belongs to the owner of the keychain.
    pub fn sign_with_index<K: Keychain<Signature = S>>(signable: T, keychain: &K) -> (result: Self)
        ensures
            result.deep_view().signable == (IndexedView {
                signable: signable.deep_view(),
                index: keychain.node(),
            }),
            keychain.signs(
                T::message_of(signable.deep_view()),
                result.deep_view().signature,
            ),
    {
        let index: NodeIndex = keychain.index();
        Signed::sign(Indexed::new(signable, index), keychain)
    }
}

/// A value with a complete multisignature.
pub struct Multisigned<T, P> {
    unchecked: UncheckedSigned<T, P>,
}

impl<T: DeepView, P: DeepView> DeepView for Multisigned<T, P> {
    type V = SignedView<T::V, P::V>;

    closed spec fn deep_view(&self) -> SignedView<T::V, P::V> {
        self.unchecked.deep_view()
    }
}

impl<T: DeepView, P: DeepView> Multisigned<T, P> {
    pub fn as_signable(&self) -> (signable: &T)
        ensures
            signable.deep_view() == self.deep_view().signable,
    {
        self.unchecked.as_signable()
    }

    /// Forgets that the multisignature was checked.
    pub fn into_unchecked(self) -> (unchecked: UncheckedSigned<T, P>)
        ensures
            unchecked.deep_view() == self.deep_view(),
    {
        self.unchecked
    }
}

impl<T: Encoding, P: Encoding> Encoding for Multisigned<T, P> {
    open spec fn valid(v: SignedView<T::V, P::V>) -> bool {
        <UncheckedSigned<T, P>>::valid(
            v,
        )
    }

    open spec fn encoded(v: SignedView<T::V, P::V>) -> Seq<u8> {
        <UncheckedSigned<T, P>>::encoded(
            v,
        )
    }

    open spec fn failure(bytes: Seq<u8>) -> Seq<Seq<char>> {
        part_failure::<UncheckedSigned<T, P>>(
            "Could not decode `Multisigned::unchecked`"@,
            bytes,
        )
    }

    open spec fn in_bulk() -> bool {
        false
    }

    open spec fn shown(v: SignedView<T::V, P::V>) -> Seq<char> {
        "Multisigned { unchecked: "@ + <UncheckedSigned<T, P>>::shown(v) + " }"@
    }
}

impl<T: Data, P: Data> Data for Multisigned<T, P> {
    proof fn lemma_valid(&self) {
        self.unchecked.lemma_valid();
    }

    proof fn lemma_prefix_free(
        v: SignedView<T::V, P::V>,
        w: SignedView<T::V, P::V>,
        bytes: Seq<u8>,
    ) {
        <UncheckedSigned<T, P>>::lemma_prefix_free(
            v,
            w,
            bytes,
        );
    }

    fn copy(&self) -> (other: Self) {
        Multisigned {
            unchecked: self.unchecked.copy(),
        }
    }

    fn equals(&self, other: &Self) -> (equal: bool) {
        self.unchecked.equals(&other.unchecked)
    }

    fn encode_to(&self, out: &mut Vec<u8>) {
        let ghost start = out@;
        self.unchecked.encode_to(out);
        proof {
            assert(out@ =~= start + Self::encoded(self.deep_view()));
        }
    }

    fn decode(input: &Vec<u8>, pos: usize) -> (result: Option<(Self, usize)>) {
        match <UncheckedSigned<T, P>>::decode(
            input,
            pos,
        ) {
            Some((unchecked, end)) => {
                Some((Multisigned { unchecked }, end))
            },
            None => {
                proof {
                    let rest = input@.skip(pos as int);
                    assert forall|v: SignedView<T::V, P::V>| Self::valid(v) implies !(
                    #[trigger] Self::encoded(v)).is_prefix_of(rest) by {
                        assert(!<UncheckedSigned<T, P>>::encoded(
                            v,
                        ).is_prefix_of(rest));
                    }
                }
                None
            },
        }
    }

    fn explain(input: &Vec<u8>, pos: usize) -> (error: CodecError) {
        let ghost rest = input@.skip(pos as int);
        match skip_part::<UncheckedSigned<T, P>>(
            input,
            pos,
            "Could not decode `Multisigned::unchecked`",
        ) {
            Err(error) => error,
            Ok(_) => {
                proof {
                    let t = choose|t: <UncheckedSigned<T, P> as DeepView>::V|
                        <UncheckedSigned<T, P>>::valid(t) && (#[trigger] <UncheckedSigned<T, P>>::encoded(
                            t,
                        )).is_prefix_of(rest);
                    assert(Self::encoded(
                        t,
                    ).is_prefix_of(rest));
                }
                CodecError::new(String::new())
            },
        }
    }

    fn reads_in_bulk() -> (bulk: bool) {
        false
    }

    fn show(&self, out: &mut String) {
        let ghost start = out@;
        out.append("Multisigned { unchecked: ");
        self.unchecked.show(out);
        out.append(" }");
        proof {
            assert(out@ =~= start + Self::shown(self.deep_view()));
        }
    }
}

/// A value with a multisignature, complete or not.
pub enum PartiallyMultisigned<T, P> {
    Incomplete(UncheckedSigned<T, P>),
    Complete(Multisigned<T, P>),
}

/// The model of a value with a multisignature, complete or not.
pub struct PartialView<T, P> {
    pub content: SignedView<T, P>,
    pub complete: bool,
}

impl<T: DeepView, P: DeepView> DeepView for PartiallyMultisigned<T, P> {
    type V = PartialView<T::V, P::V>;

    open spec fn deep_view(&self) -> PartialView<T::V, P::V> {
        PartialView { content: self.content(), complete: *self is Complete }
    }
}

impl<T: DeepView, P: DeepView> PartiallyMultisigned<T, P> {
    /// The model of the value and its multisignature.
    pub open spec fn content(&self) -> SignedView<T::V, P::V> {
        match self {
            PartiallyMultisigned::Incomplete(unchecked) => unchecked.deep_view(),
            PartiallyMultisigned::Complete(multisigned) => multisigned.deep_view(),
        }
    }

    pub fn as_signable(&self) -> (signable: &T)
        ensures
            signable.deep_view() == self.content().signable,
    {
        match self {
            PartiallyMultisigned::Incomplete(unchecked) => unchecked.as_signable(),
            PartiallyMultisigned::Complete(multisigned) => multisigned.as_signable(),
        }
    }

    pub fn is_complete(&self) -> (result: bool)
        ensures
            result == (self is Complete),
    {
        match self {
            PartiallyMultisigned::Incomplete(_) => false,
            PartiallyMultisigned::Complete(_) => true,
        }
    }

    pub fn into_unchecked(self) -> (unchecked: UncheckedSigned<T, P>)
        ensures
            unchecked.deep_view() == self.content(),
    {
        match self {
            PartiallyMultisigned::Incomplete(unchecked) => unchecked,
            PartiallyMultisigned::Complete(multisigned) => multisigned.into_unchecked(),
        }
    }
}

impl<T: Data + Signable, P: PartialMultisignature> PartiallyMultisigned<T, P> {
    /// Complete exactly if the keychain says so.
    fn sorted<MK: MultiKeychain<PartialMultisignature = P, Signature = P::Signature>>(
        unchecked: UncheckedSigned<T, P>,
        keychain: &MK,
    ) -> (result: Self)
        ensures
            result.content() == unchecked.deep_view(),
            result is Complete <==> keychain.completes(
                T::message_of(unchecked.deep_view().signable),
                unchecked.deep_view().signature,
            ),
    {
        match unchecked.check_multi(keychain) {
            Ok(multisigned) => PartiallyMultisigned::Complete(multisigned),
            Err(e) => PartiallyMultisigned::Incomplete(e.unchecked),
        }
    }

    /// Starts a multisignature with one signature.
    pub fn sign<MK: MultiKeychain<PartialMultisignature = P, Signature = P::Signature>>(
        signed: Signed<Indexed<T>, P::Signature>,
        keychain: &MK,
    ) -> (result: Self)
        ensures
            result.content() == (SignedView {
                signable: signed.deep_view().signable.signable,
                signature: keychain.started(
                    signed.deep_view().signature,
                    signed.deep_view().signable.index,
                ),
            }),
            result is Complete <==> keychain.completes(
                T::message_of(result.content().signable),
                result.content().signature,
            ),
    {
        let index: NodeIndex = signed.unchecked.signable.index();
        let signature: P = keychain.from_signature(&signed.unchecked.signature, index);
        let signable: T = signed.unchecked.signable.into_signable();
        Self::sorted(UncheckedSigned { signable, signature }, keychain)
    }

    /// Puts in one more signature under the same value; a complete multisignature, and one under
    /// another value, stay as they are.
    pub fn add_signature<MK: MultiKeychain<PartialMultisignature = P, Signature = P::Signature>>(
        self,
        signed: Signed<Indexed<T>, P::Signature>,
        keychain: &MK,
    ) -> (result: Self)
        ensures
            self is Complete || self.content().signable != signed.deep_view().signable.signable
                ==> result.content() == self.content() && (result is Complete <==> self is Complete),
            self is Incomplete && self.content().signable == signed.deep_view().signable.signable
                ==> {
                &&& result.content() == (SignedView {
                    signable: self.content().signable,
                    signature: P::with_signature(
                        self.content().signature,
                        signed.deep_view().signature,
                        signed.deep_view().signable.index,
                    ),
                })
                &&& result is Complete <==> keychain.completes(
                    T::message_of(result.content().signable),
                    result.content().signature,
                )
            },
    {
        match self {
            PartiallyMultisigned::Complete(multisigned) => {
                PartiallyMultisigned::Complete(multisigned)
            },
            PartiallyMultisigned::Incomplete(unchecked) => {
                if !unchecked.signable.equals(signed.unchecked.signable.as_signable()) {
                    return PartiallyMultisigned::Incomplete(unchecked);
                }
                let index: NodeIndex = signed.unchecked.signable.index();
                let UncheckedSigned { signable, signature } = unchecked;
                let signature: P = signature.add_signature(&signed.unchecked.signature, index);
                Self::sorted(UncheckedSigned { signable, signature }, keychain)
            },
        }
    }
}

} // verus!
