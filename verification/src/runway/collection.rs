//! Initial unit collection: asking the other members for our newest unit.
use crate::alerts::SignedUnitView;
use crate::codec_error::CodecError;
use crate::collections::VecSet;
use crate::crypto::{HashOf, Hasher, Index, Keychain, Signable, SignatureOf};
use crate::data::{
    behind, lemma_both_encoded, no_encoding, part_failure, skip_part, Data, Encoding,
};
use crate::nodes::{NodeCount, NodeIndex, Round};
use crate::signed;
use crate::signed::{SignedView, UncheckedSigned};
use crate::text;
use crate::text::{append_decimal, append_named};
use crate::units::validator;
use crate::units::validator::{ValidationError, ValidationErrorView, Validator};
use crate::units::{FullUnit, SignedUnit, UncheckedSignedUnit};
use std::collections::hash_map::DefaultHasher;
use std::hash::{Hash, Hasher as StdHasher};
use std::time::Instant;
use vstd::prelude::*;
use vstd::std_specs::hash::DefaultHasherAdditionalSpecFns;
use vstd::string::StringExecFns;

verus! {

/// Salt uniquely identifying an initial unit collection instance.
pub type Salt = u64;

/// `Hash::hash` of `std::time::Instant`: feeds a reading of the clock to a hasher. What exactly is
/// fed is not documented, so nothing is known of the hasher afterwards.
#[verifier::external_body]
fn feed(hasher: &mut DefaultHasher, instant: &Instant) {
    instant.hash(hasher);
}

/// A salt that depends on the time: what std's default hasher makes of a reading of the clock. The
/// data that a reading feeds to the hasher is not known, so the salt is the hash of some data.
fn generate_salt() -> (salt: Salt)
    ensures
        exists|fed: Seq<Seq<u8>>| salt == #[trigger] DefaultHasher::spec_finish(fed),
{
    let mut hasher: DefaultHasher = DefaultHasher::new();
    feed(&mut hasher, &Instant::now());
    hasher.finish()
}

/// The model of a response.
pub struct NewestUnitResponseView<V, D, S> {
    pub requester: NodeIndex,
    pub responder: NodeIndex,
    pub unit: Option<SignedUnitView<V, D, S>>,
    pub salt: Salt,
}

/// A response to the request for the newest unit.
pub struct NewestUnitResponse<H: Hasher, D: Data, S: Data> {
    requester: NodeIndex,
    responder: NodeIndex,
    unit: Option<UncheckedSignedUnit<H, D, S>>,
    salt: Salt,
}

impl<H: Hasher, D: Data, S: Data> DeepView for NewestUnitResponse<H, D, S> {
    type V = NewestUnitResponseView<HashOf<H>, D::V, S::V>;

    closed spec fn deep_view(&self) -> NewestUnitResponseView<HashOf<H>, D::V, S::V> {
        NewestUnitResponseView {
            requester: self.requester,
            responder: self.responder,
            unit: self.unit.deep_view(),
            salt: self.salt,
        }
    }
}

impl<H: Hasher, D: Data, S: Data> Encoding for NewestUnitResponse<H, D, S> {
    open spec fn valid(v: NewestUnitResponseView<HashOf<H>, D::V, S::V>) -> bool {
        <(NodeIndex, (NodeIndex, (Option<UncheckedSignedUnit<H, D, S>>, Salt)))>::valid(
            (v.requester, (v.responder, (v.unit, v.salt))),
        )
    }

    open spec fn encoded(v: NewestUnitResponseView<HashOf<H>, D::V, S::V>) -> Seq<u8> {
        <(NodeIndex, (NodeIndex, (Option<UncheckedSignedUnit<H, D, S>>, Salt)))>::encoded(
            (v.requester, (v.responder, (v.unit, v.salt))),
        )
    }

    open spec fn failure(bytes: Seq<u8>) -> Seq<Seq<char>> {
        if no_encoding::<NodeIndex>(bytes) {
            part_failure::<NodeIndex>(
                "Could not decode `NewestUnitResponse::requester`"@,
                bytes,
            )
        } else {
            let behind_requester = behind::<NodeIndex>(bytes);
            if no_encoding::<NodeIndex>(behind_requester) {
                part_failure::<NodeIndex>(
                    "Could not decode `NewestUnitResponse::responder`"@,
                    behind_requester,
                )
            } else {
                let behind_responder = behind::<NodeIndex>(behind_requester);
                if no_encoding::<Option<UncheckedSignedUnit<H, D, S>>>(behind_responder) {
                    part_failure::<Option<UncheckedSignedUnit<H, D, S>>>(
                        "Could not decode `NewestUnitResponse::unit`"@,
                        behind_responder,
                    )
                } else {
                    let behind_unit = behind::<Option<UncheckedSignedUnit<H, D, S>>>(behind_responder);
                    part_failure::<Salt>(
                        "Could not decode `NewestUnitResponse::salt`"@,
                        behind_unit,
                    )
                }
            }
        }
    }

    open spec fn in_bulk() -> bool {
        false
    }

    open spec fn shown(v: NewestUnitResponseView<HashOf<H>, D::V, S::V>) -> Seq<char> {
        "NewestUnitResponse { requester: "@ + NodeIndex::shown(v.requester)
            + ", responder: "@ + NodeIndex::shown(v.responder)
            + ", unit: "@ + <Option<UncheckedSignedUnit<H, D, S>>>::shown(v.unit)
            + ", salt: "@ + Salt::shown(v.salt) + " }"@
    }
}

impl<H: Hasher, D: Data, S: Data> Data for NewestUnitResponse<H, D, S> {
    proof fn lemma_valid(&self) {
        self.requester.lemma_valid();
        self.responder.lemma_valid();
        self.unit.lemma_valid();
        self.salt.lemma_valid();
    }

    proof fn lemma_prefix_free(
        v: NewestUnitResponseView<HashOf<H>, D::V, S::V>,
        w: NewestUnitResponseView<HashOf<H>, D::V, S::V>,
        bytes: Seq<u8>,
    ) {
        <(NodeIndex, (NodeIndex, (Option<UncheckedSignedUnit<H, D, S>>, Salt)))>::lemma_prefix_free(
            (v.requester, (v.responder, (v.unit, v.salt))),
            (w.requester, (w.responder, (w.unit, w.salt))),
            bytes,
        );
    }

    fn copy(&self) -> (other: Self) {
        NewestUnitResponse {
            requester: self.requester.copy(),
            responder: self.responder.copy(),
            unit: self.unit.copy(),
            salt: self.salt.copy(),
        }
    }

    fn equals(&self, other: &Self) -> (equal: bool) {
        self.requester.equals(&other.requester)
            && self.responder.equals(&other.responder)
            && self.unit.equals(&other.unit)
            && self.salt.equals(&other.salt)
    }

    fn encode_to(&self, out: &mut Vec<u8>) {
        let ghost start = out@;
        self.requester.encode_to(out);
        self.responder.encode_to(out);
        self.unit.encode_to(out);
        self.salt.encode_to(out);
        proof {
            assert(out@ =~= start + Self::encoded(self.deep_view()));
        }
    }

    fn decode(input: &Vec<u8>, pos: usize) -> (result: Option<(Self, usize)>) {
        match <(NodeIndex, (NodeIndex, (Option<UncheckedSignedUnit<H, D, S>>, Salt)))>::decode(
            input,
            pos,
        ) {
            Some(((requester, (responder, (unit, salt))), end)) => {
                Some((NewestUnitResponse { requester, responder, unit, salt }, end))
            },
            None => {
                proof {
                    let rest = input@.skip(pos as int);
                    assert forall|v: NewestUnitResponseView<HashOf<H>, D::V, S::V>| Self::valid(v) implies !(
                    #[trigger] Self::encoded(v)).is_prefix_of(rest) by {
                        assert(!<(NodeIndex, (NodeIndex, (Option<UncheckedSignedUnit<H, D, S>>, Salt)))>::encoded(
                            (v.requester, (v.responder, (v.unit, v.salt))),
                        ).is_prefix_of(rest));
                    }
                }
                None
            },
        }
    }

    fn explain(input: &Vec<u8>, pos: usize) -> (error: CodecError) {
        let ghost rest = input@.skip(pos as int);
        let behind_requester: usize = match skip_part::<NodeIndex>(
            input,
            pos,
            "Could not decode `NewestUnitResponse::requester`",
        ) {
            Ok(end) => end,
            Err(error) => {
                return error;
            },
        };
        let behind_responder: usize = match skip_part::<NodeIndex>(
            input,
            behind_requester,
            "Could not decode `NewestUnitResponse::responder`",
        ) {
            Ok(end) => end,
            Err(error) => {
                return error;
            },
        };
        let behind_unit: usize = match skip_part::<Option<UncheckedSignedUnit<H, D, S>>>(
            input,
            behind_responder,
            "Could not decode `NewestUnitResponse::unit`",
        ) {
            Ok(end) => end,
            Err(error) => {
                return error;
            },
        };
        match skip_part::<Salt>(
            input,
            behind_unit,
            "Could not decode `NewestUnitResponse::salt`",
        ) {
            Err(error) => error,
            Ok(_) => {
                proof {
                    lemma_both_encoded::<
                        Option<UncheckedSignedUnit<H, D, S>>,
                        Salt,
                    >(input@.skip(behind_responder as int));
                    lemma_both_encoded::<
                        NodeIndex,
                        (Option<UncheckedSignedUnit<H, D, S>>, Salt),
                    >(input@.skip(behind_requester as int));
                    lemma_both_encoded::<
                        NodeIndex,
                        (NodeIndex, (Option<UncheckedSignedUnit<H, D, S>>, Salt)),
                    >(rest);
                    let t = choose|t: <(NodeIndex, (NodeIndex, (Option<UncheckedSignedUnit<H, D, S>>, Salt))) as DeepView>::V|
                        <(NodeIndex, (NodeIndex, (Option<UncheckedSignedUnit<H, D, S>>, Salt)))>::valid(t) && (#[trigger] <(NodeIndex, (NodeIndex, (Option<UncheckedSignedUnit<H, D, S>>, Salt)))>::encoded(
                            t,
                        )).is_prefix_of(rest);
                    assert(Self::encoded(
                        NewestUnitResponseView { requester: t.0, responder: t.1.0, unit: t.1.1.0, salt: t.1.1.1 },
                    ).is_prefix_of(rest));
                }
                CodecError::new(String::new())
            },
        }
    }

    fn reads_in_bulk() -> (bulk: bool) {
        false
    }

    fn show(&self, out: &mut String) {
        let ghost start = out@;
        out.append("NewestUnitResponse { requester: ");
        self.requester.show(out);
        out.append(", responder: ");
        self.responder.show(out);
        out.append(", unit: ");
        self.unit.show(out);
        out.append(", salt: ");
        self.salt.show(out);
        out.append(" }");
        proof {
            assert(out@ =~= start + Self::shown(self.deep_view()));
        }
    }
}

impl<H: Hasher, D: Data, S: Data> Signable for NewestUnitResponse<H, D, S> {
    open spec fn message_of(v: NewestUnitResponseView<HashOf<H>, D::V, S::V>) -> Seq<u8> {
        Self::encoded(v)
    }

    fn message(&self) -> (message: Vec<u8>) {
        self.encode()
    }
}

impl<H: Hasher, D: Data, S: Data> Index for NewestUnitResponse<H, D, S> {
    open spec fn index_of(v: NewestUnitResponseView<HashOf<H>, D::V, S::V>) -> NodeIndex {
        v.responder
    }

    fn index(&self) -> (index: NodeIndex) {
        self.responder
    }
}

impl<H: Hasher, D: Data, S: Data> NewestUnitResponse<H, D, S> {
    /// Create a newest unit response.
    pub fn new(
        requester: NodeIndex,
        responder: NodeIndex,
        unit: Option<UncheckedSignedUnit<H, D, S>>,
        salt: Salt,
    ) -> (result: Self)
        ensures
            result.deep_view() == (NewestUnitResponseView {
                requester,
                responder,
                unit: unit.deep_view(),
                salt,
            }),
    {
        NewestUnitResponse { requester, responder, unit, salt }
    }

    /// The unit included in this response, if any.
    pub fn included_unit(&self) -> (unit: &Option<UncheckedSignedUnit<H, D, S>>)
        ensures
            unit.deep_view() == self.deep_view().unit,
    {
        &self.unit
    }

    /// The data included in this message, i.e. contents of the unit if any.
    pub fn included_data(&self) -> (result: Vec<D>)
        ensures
            result.deep_view() == (match self.deep_view().unit {
                Some(unit) => match unit.signable.data {
                    Some(d) => seq![d],
                    None => seq![],
                },
                None => seq![],
            }),
    {
        match &self.unit {
            Some(u) => u.as_signable().included_data(),
            None => {
                let none: Vec<D> = Vec::new();
                proof {
                    assert(none.deep_view() =~= seq![]);
                }
                none
            },
        }
    }

    /// Who requested this response.
    pub fn requester(&self) -> (requester: NodeIndex)
        ensures
            requester == self.deep_view().requester,
    {
        self.requester
    }
}

/// Ways in which a newest unit response might be wrong.
pub enum Error<H: Hasher, D: Data, S: Data> {
    WrongSignature,
    SaltMismatch(Salt, Salt),
    InvalidUnit(ValidationError<H, D, S>),
    ForeignUnit(NodeIndex),
}

/// The model of an error.
pub enum ErrorView<V, D, S> {
    WrongSignature,
    SaltMismatch(Salt, Salt),
    InvalidUnit(ValidationErrorView<V, D, S>),
    ForeignUnit(NodeIndex),
}

impl<H: Hasher, D: Data, S: Data> DeepView for Error<H, D, S> {
    type V = ErrorView<HashOf<H>, D::V, S::V>;

    open spec fn deep_view(&self) -> ErrorView<HashOf<H>, D::V, S::V> {
        match self {
            Error::WrongSignature => ErrorView::WrongSignature,
            Error::SaltMismatch(expected, got) => ErrorView::SaltMismatch(*expected, *got),
            Error::InvalidUnit(e) => ErrorView::InvalidUnit(e.deep_view()),
            Error::ForeignUnit(id) => ErrorView::ForeignUnit(*id),
        }
    }
}

/// The message of an error.
pub open spec fn error_text<H: Hasher, D: Data, S: Data>(
    error: ErrorView<HashOf<H>, D::V, S::V>,
) -> Seq<char> {
    match error {
        ErrorView::WrongSignature => "wrong signature"@,
        ErrorView::SaltMismatch(expected, got) => "mismatched salt, expected "@ + text::decimal(
            expected as nat,
        ) + ", got "@ + text::decimal(got as nat),
        ErrorView::InvalidUnit(e) => "invalid unit: "@ + validator::error_text::<H, D, S>(e),
        ErrorView::ForeignUnit(id) => "unit from node "@ + text::named("NodeIndex"@, id.0 as nat),
    }
}

impl<H: Hasher, D: Data, S: Data> Error<H, D, S> {
    /// The message of the error.
    pub fn text(&self) -> (out: String)
        ensures
            out@ == error_text::<H, D, S>(self.deep_view()),
    {
        let mut out: String = String::new();
        match self {
            Error::WrongSignature => {
                out.append("wrong signature");
            },
            Error::SaltMismatch(expected, got) => {
                out.append("mismatched salt, expected ");
                append_decimal(&mut out, *expected);
                out.append(", got ");
                append_decimal(&mut out, *got);
            },
            Error::InvalidUnit(e) => {
                out.append("invalid unit: ");
                out.append(e.text().as_str());
            },
            Error::ForeignUnit(id) => {
                out.append("unit from node ");
                append_named(&mut out, "NodeIndex", id.0 as u64);
            },
        }
        proof {
            assert(out@ =~= error_text::<H, D, S>(self.deep_view()));
        }
        out
    }
}

/// The model of a collection.
#[verifier::ext_equal]
pub struct CollectionView {
    /// The round behind our newest unit that anybody has told us of.
    pub starting_round: Round,
    pub responders: Set<NodeIndex>,
}

/// What is wrong, if anything, with a response to a collection with this salt.
pub open spec fn verdict<H: Hasher, D: Data, K: Keychain>(
    keychain: K,
    validator: &Validator<K>,
    salt: Salt,
    response: SignedView<NewestUnitResponseView<HashOf<H>, D::V, SignatureOf<K>>, SignatureOf<K>>,
) -> Option<ErrorView<HashOf<H>, D::V, SignatureOf<K>>> {
    let contents = response.signable;
    if !signed::signed_by_owner::<NewestUnitResponse<H, D, K::Signature>, K>(keychain, response) {
        Some(ErrorView::WrongSignature)
    } else if contents.salt != salt {
        Some(ErrorView::SaltMismatch(salt, contents.salt))
    } else {
        match contents.unit {
            Some(unit) => match validator.verdict::<H, D>(unit) {
                Some(e) => Some(ErrorView::InvalidUnit(e)),
                None => if unit.signable.creator() != keychain.node() {
                    Some(ErrorView::ForeignUnit(unit.signable.creator()))
                } else {
                    None
                },
            },
            None => None,
        }
    }
}

/// A correct response is taken into account.
pub open spec fn with_response<V, D, S>(
    state: CollectionView,
    response: NewestUnitResponseView<V, D, S>,
) -> CollectionView {
    CollectionView {
        starting_round: match response.unit {
            Some(unit) => if unit.signable.round() >= state.starting_round {
                (unit.signable.round() + 1) as Round
            } else {
                state.starting_round
            },
            None => state.starting_round,
        },
        responders: state.responders.insert(response.responder),
    }
}

/// Initial unit collection to figure out at which round we should start unit production.
/// Unfortunately this isn't quite BFT, but it's good enough in many situations.
pub struct Collection<'a, K: Keychain> {
    keychain: &'a K,
    validator: &'a Validator<'a, K>,
    starting_round: Round,
    responders: VecSet<NodeIndex>,
    threshold: NodeCount,
    salt: Salt,
}

impl<'a, K: Keychain> DeepView for Collection<'a, K> {
    type V = CollectionView;

    closed spec fn deep_view(&self) -> CollectionView {
        CollectionView {
            starting_round: self.starting_round,
            responders: self.responders.deep_view(),
        }
    }
}

impl<'a, K: Keychain> Collection<'a, K> {
    /// The keys that signatures are checked with.
    pub closed spec fn keys(&self) -> K {
        *self.keychain
    }

    /// What units are checked with.
    pub closed spec fn checker(&self) -> Validator<'a, K> {
        *self.validator
    }

    /// How many members, ourselves included, have to be heard from.
    pub closed spec fn needed(&self) -> NodeCount {
        self.threshold
    }

    /// The salt that responses have to carry.
    pub closed spec fn own_salt(&self) -> Salt {
        self.salt
    }

    /// Nothing changes but what was collected.
    pub open spec fn same_setup(&self, other: &Self) -> bool {
        &&& self.keys() == other.keys()
        &&& self.checker() == other.checker()
        &&& self.needed() == other.needed()
        &&& self.own_salt() == other.own_salt()
    }

    /// A response can be processed: if it is correct, its unit is not of the last possible round,
    /// after which there would be no round to start from.
    pub open spec fn admits<H: Hasher, D: Data>(
        &self,
        response: SignedView<
            NewestUnitResponseView<HashOf<H>, D::V, SignatureOf<K>>,
            SignatureOf<K>,
        >,
    ) -> bool {
        verdict::<H, D, K>(self.keys(), &self.checker(), self.own_salt(), response) is None ==> (
        response.signable.unit matches Some(unit) ==> unit.signable.round() < u16::MAX)
    }

    /// Create a new collection instance ready to collect responses.
    /// The returned salt should be used to initiate newest unit requests.
    pub fn new(keychain: &'a K, validator: &'a Validator<'a, K>, threshold: NodeCount) -> (result: (
        Self,
        Salt,
    ))
        ensures
            result.0.keys() == *keychain,
            result.0.checker() == *validator,
            result.0.needed() == threshold,
            result.0.own_salt() == result.1,
            result.0.deep_view() == (CollectionView {
                starting_round: 0,
                responders: Set::empty(),
            }),
    {
        let salt: Salt = generate_salt();
        (Self::with_salt(keychain, validator, threshold, salt), salt)
    }

    /// A collection instance with the given salt.
    pub fn with_salt(
        keychain: &'a K,
        validator: &'a Validator<'a, K>,
        threshold: NodeCount,
        salt: Salt,
    ) -> (result: Self)
        ensures
            result.keys() == *keychain,
            result.checker() == *validator,
            result.needed() == threshold,
            result.own_salt() == salt,
            result.deep_view() == (CollectionView { starting_round: 0, responders: Set::empty() }),
    {
        Collection {
            keychain,
            validator,
            starting_round: 0,
            responders: VecSet::new(),
            threshold,
            salt,
        }
    }

    /// Checks a response: who responded, and the round of the unit, if there is one.
    fn examine<H: Hasher, D: Data>(
        &self,
        unchecked_response: UncheckedSigned<
            NewestUnitResponse<H, D, K::Signature>,
            K::Signature,
        >,
    ) -> (result: Result<(NodeIndex, Option<Round>), Error<H, D, K::Signature>>)
        ensures
            ({
                let verdict = verdict::<H, D, K>(
                    self.keys(),
                    &self.checker(),
                    self.own_salt(),
                    unchecked_response.deep_view(),
                );
                let contents = unchecked_response.deep_view().signable;
                match result {
                    Ok((responder, round)) => {
                        &&& verdict is None
                        &&& responder == contents.responder
                        &&& match contents.unit {
                            Some(unit) => round == Some(unit.signable.round()),
                            None => round is None,
                        }
                    },
                    Err(e) => verdict == Some(e.deep_view()),
                }
            }),
    {
        let response: NewestUnitResponse<H, D, K::Signature> = match unchecked_response.check(
            self.keychain,
        ) {
            Ok(response) => response.into_signable(),
            Err(_) => {
                return Err(Error::WrongSignature);
            },
        };
        if response.salt != self.salt {
            return Err(Error::SaltMismatch(self.salt, response.salt));
        }
        let responder: NodeIndex = response.responder;
        match response.unit {
            Some(unchecked_unit) => {
                let checked_signed_unit: SignedUnit<H, D, K::Signature> =
                    match self.validator.validate_unit(unchecked_unit) {
                    Ok(unit) => unit,
                    Err(e) => {
                        return Err(Error::InvalidUnit(e));
                    },
                };
                let checked_unit: &FullUnit<H, D> = checked_signed_unit.as_signable();
                if checked_unit.creator() != self.keychain.index() {
                    return Err(Error::ForeignUnit(checked_unit.creator()));
                }
                Ok((responder, Some(checked_unit.round())))
            },
            None => Ok((responder, None)),
        }
    }

    /// Whether a response can be processed.
    pub fn can_process<H: Hasher, D: Data>(
        &self,
        unchecked_response: &UncheckedSigned<
            NewestUnitResponse<H, D, K::Signature>,
            K::Signature,
        >,
    ) -> (result: bool)
        ensures
            result == self.admits::<H, D>(unchecked_response.deep_view()),
    {
        match self.examine(unchecked_response.copy()) {
            Ok((_, Some(round))) => round < u16::MAX,
            _ => true,
        }
    }

    /// Process a response to a newest unit request.
    pub fn on_newest_response<H: Hasher, D: Data>(
        &mut self,
        unchecked_response: UncheckedSigned<
            NewestUnitResponse<H, D, K::Signature>,
            K::Signature,
        >,
    ) -> (result: Result<(), Error<H, D, K::Signature>>)
        requires
            old(self).admits::<H, D>(unchecked_response.deep_view()),
        ensures
            final(self).same_setup(old(self)),
            ({
                let verdict = verdict::<H, D, K>(
                    old(self).keys(),
                    &old(self).checker(),
                    old(self).own_salt(),
                    unchecked_response.deep_view(),
                );
                match result {
                    Ok(()) => verdict is None && final(self).deep_view() == with_response(
                        old(self).deep_view(),
                        unchecked_response.deep_view().signable,
                    ),
                    Err(e) => verdict == Some(e.deep_view()) && final(self).deep_view() == old(self).deep_view(),
                }
            }),
    {
        let (responder, round): (NodeIndex, Option<Round>) = match self.examine(unchecked_response) {
            Ok(found) => found,
            Err(e) => {
                return Err(e);
            },
        };
        if let Some(round) = round {
            let starting_round_candidate: Round = round + 1;
            if starting_round_candidate > self.starting_round {
                self.starting_round = starting_round_candidate;
            }
        }
        let _ = self.responders.insert(responder);
        Ok(())
    }

    /// The salt associated with this collection instance.
    pub fn salt(&self) -> (salt: Salt)
        ensures
            salt == self.own_salt(),
    {
        self.salt
    }

    fn ready(&self) -> (result: bool)
        ensures
            result == (self.deep_view().responders.len() + 1 >= self.needed().0),
    {
        let heard: usize = self.responders.len();
        self.threshold.0 == 0 || heard >= self.threshold.0 - 1
    }

    /// Returns the starting round if it already collected enough responses, nothing otherwise.
    pub fn starting_round(&self) -> (result: Option<Round>)
        ensures
            result == start(self.deep_view(), self.needed()),
    {
        if self.ready() {
            Some(self.starting_round)
        } else {
            None
        }
    }
}

/// The round to start from, if enough members, ourselves included, have been heard from.
pub open spec fn start(state: CollectionView, needed: NodeCount) -> Option<Round> {
    if state.responders.len() + 1 >= needed.0 {
        Some(state.starting_round)
    } else {
        None
    }
}

/// What happens to a running collection.
pub enum Event<H: Hasher, D: Data, S: Data> {
    /// A response comes in.
    Response(UncheckedSigned<NewestUnitResponse<H, D, S>, S>),
    /// No more responses can come in.
    Closed,
    /// The time to catch up is over.
    CaughtUp,
}

/// What a running collection decides.
pub enum Decision<H: Hasher, D: Data, S: Data> {
    /// Wait for the next event.
    Wait,
    /// Wait for the next event; the response was wrong.
    Ignore(Error<H, D, S>),
    /// Start from this round; the request is resolved.
    Start(Round),
    /// Give up.
    Stop,
}

/// A running collection: until the time to catch up is over, responses are only gathered;
/// afterwards the first moment at which they are enough decides.
pub struct IO<'a, K: Keychain> {
    collection: Collection<'a, K>,
    catching_up: bool,
}

impl<'a, K: Keychain> IO<'a, K> {
    /// What was collected.
    pub closed spec fn inner(&self) -> Collection<'a, K> {
        self.collection
    }

    /// Whether there is still time to catch up.
    pub closed spec fn gathering(&self) -> bool {
        self.catching_up
    }

    pub fn new(collection: Collection<'a, K>) -> (result: Self)
        ensures
            result.inner() == collection,
            result.gathering(),
    {
        IO { collection, catching_up: true }
    }

    /// The salt of the collection.
    pub fn salt(&self) -> (salt: Salt)
        ensures
            salt == self.inner().own_salt(),
    {
        self.collection.salt()
    }

    /// Whether a response can be processed.
    pub fn can_process<H: Hasher, D: Data>(
        &self,
        response: &UncheckedSigned<NewestUnitResponse<H, D, K::Signature>, K::Signature>,
    ) -> (result: bool)
        ensures
            result == self.inner().admits::<H, D>(response.deep_view()),
    {
        self.collection.can_process(response)
    }

    /// What to do about an event.
    pub fn on_event<H: Hasher, D: Data>(&mut self, event: Event<H, D, K::Signature>) -> (decision:
        Decision<H, D, K::Signature>)
        requires
            event matches Event::Response(response) ==> old(self).inner().admits::<H, D>(
                response.deep_view(),
            ),
        ensures
            final(self).inner().same_setup(&old(self).inner()),
            ({
                let before = old(self).inner();
                let after = final(self).inner();
                match event {
                    Event::Closed => decision is Stop && after == before && final(self).gathering() == old(self).gathering(),
                    Event::CaughtUp => {
                        &&& after == before
                        &&& !final(self).gathering()
                        &&& match start(before.deep_view(), before.needed()) {
                            Some(round) => decision matches Decision::Start(r) && r == round,
                            None => decision is Wait,
                        }
                    },
                    Event::Response(response) => {
                        let verdict = verdict::<H, D, K>(
                            before.keys(),
                            &before.checker(),
                            before.own_salt(),
                            response.deep_view(),
                        );
                        &&& final(self).gathering() == old(self).gathering()
                        &&& match verdict {
                            Some(error) => {
                                &&& decision matches Decision::Ignore(e)
                                &&& e.deep_view() == error
                                &&& after.deep_view() == before.deep_view()
                            },
                            None => {
                                &&& after.deep_view() == with_response(
                                    before.deep_view(),
                                    response.deep_view().signable,
                                )
                                &&& match start(after.deep_view(), before.needed()) {
                                    Some(round) => if old(self).gathering() {
                                        decision is Wait
                                    } else {
                                        decision matches Decision::Start(r) && r == round
                                    },
                                    None => decision is Wait,
                                }
                            },
                        }
                    },
                }
            }),
    {
        match event {
            Event::Closed => Decision::Stop,
            Event::CaughtUp => {
                self.catching_up = false;
                match self.collection.starting_round() {
                    Some(round) => Decision::Start(round),
                    None => Decision::Wait,
                }
            },
            Event::Response(response) => match self.collection.on_newest_response(response) {
                Ok(()) => {
                    if self.catching_up {
                        return Decision::Wait;
                    }
                    match self.collection.starting_round() {
                        Some(round) => Decision::Start(round),
                        None => Decision::Wait,
                    }
                },
                Err(e) => Decision::Ignore(e),
            },
        }
    }
}

/// The starting round never goes down, and nobody who responded is forgotten.
pub proof fn law_collection_grows<V, D, S>(
    state: CollectionView,
    response: NewestUnitResponseView<V, D, S>,
)
    requires
        response.unit matches Some(unit) ==> unit.signable.round() < u16::MAX,
    ensures
        with_response(state, response).starting_round >= state.starting_round,
        state.responders.subset_of(with_response(state, response).responders),
        response.unit matches Some(unit) ==> unit.signable.round() < with_response(
            state,
            response,
        ).starting_round,
{
}

/// The order in which two responses come in does not matter.
pub proof fn law_responses_commute<V, D, S>(
    state: CollectionView,
    first: NewestUnitResponseView<V, D, S>,
    second: NewestUnitResponseView<V, D, S>,
)
    requires
        first.unit matches Some(unit) ==> unit.signable.round() < u16::MAX,
        second.unit matches Some(unit) ==> unit.signable.round() < u16::MAX,
    ensures
        with_response(with_response(state, first), second) == with_response(
            with_response(state, second),
            first,
        ),
{
    assert(with_response(with_response(state, first), second) =~= with_response(
        with_response(state, second),
        first,
    ));
}

} // verus!
