//! Checks on units that can be made without looking at other units.
use crate::crypto::{HashOf, Hasher, Keychain, Signable, SignatureOf};
use crate::data::{Data, Encoding};
use crate::nodes;
use crate::nodes::{NodeCount, NodeIndex, Round, SessionId};
use crate::signed;
use crate::signed::{SignatureError, SignedView};
use crate::text;
use crate::text::{append_decimal, append_named};
use crate::units::{
    FullUnit, FullUnitView, PreUnit, PreUnitView, SignedUnit, UncheckedSignedUnit,
};
use vstd::prelude::*;
use vstd::string::StringExecFns;

verus! {

/// All that can be wrong with a unit except control hash issues.
pub enum ValidationError<H: Hasher, D: Data, S: Data> {
    WrongSignature(UncheckedSignedUnit<H, D, S>),
    WrongSession(FullUnit<H, D>),
    RoundTooHigh(FullUnit<H, D>),
    UnknownCreator(FullUnit<H, D>),
    WrongNumberOfMembers(PreUnit<H>),
    RoundZeroWithParents(PreUnit<H>),
    NotEnoughParents(PreUnit<H>),
    NotDescendantOfPreviousUnit(PreUnit<H>),
}

/// The model of a validation error.
pub enum ValidationErrorView<V, D, S> {
    WrongSignature(SignedView<FullUnitView<V, D>, S>),
    WrongSession(FullUnitView<V, D>),
    RoundTooHigh(FullUnitView<V, D>),
    UnknownCreator(FullUnitView<V, D>),
    WrongNumberOfMembers(PreUnitView<V>),
    RoundZeroWithParents(PreUnitView<V>),
    NotEnoughParents(PreUnitView<V>),
    NotDescendantOfPreviousUnit(PreUnitView<V>),
}

impl<H: Hasher, D: Data, S: Data> DeepView for ValidationError<H, D, S> {
    type V = ValidationErrorView<HashOf<H>, D::V, S::V>;

    open spec fn deep_view(&self) -> ValidationErrorView<HashOf<H>, D::V, S::V> {
        match self {
            ValidationError::WrongSignature(u) => ValidationErrorView::WrongSignature(u.deep_view()),
            ValidationError::WrongSession(u) => ValidationErrorView::WrongSession(u.deep_view()),
            ValidationError::RoundTooHigh(u) => ValidationErrorView::RoundTooHigh(u.deep_view()),
            ValidationError::UnknownCreator(u) => ValidationErrorView::UnknownCreator(u.deep_view()),
            ValidationError::WrongNumberOfMembers(u) => ValidationErrorView::WrongNumberOfMembers(
                u.deep_view(),
            ),
            ValidationError::RoundZeroWithParents(u) => ValidationErrorView::RoundZeroWithParents(
                u.deep_view(),
            ),
            ValidationError::NotEnoughParents(u) => ValidationErrorView::NotEnoughParents(
                u.deep_view(),
            ),
            ValidationError::NotDescendantOfPreviousUnit(u) => {
                ValidationErrorView::NotDescendantOfPreviousUnit(u.deep_view())
            },
        }
    }
}

/// What a unit is compared with.
pub struct Limits {
    pub session_id: SessionId,
    pub max_round: Round,
    pub n_members: NodeCount,
    pub threshold: NodeCount,
}

/// What is wrong, if anything, with the parents that a unit claims to have.
pub open spec fn parents_verdict<V, D, S>(limits: Limits, pre_unit: PreUnitView<V>) -> Option<
    ValidationErrorView<V, D, S>,
> {
    let mask = pre_unit.control_hash.parents_mask;
    let round = pre_unit.coord.round;
    let n_parents = nodes::elements(mask).len();
    if mask.len() != limits.n_members.0 {
        Some(ValidationErrorView::WrongNumberOfMembers(pre_unit))
    } else if round == 0 && n_parents > 0 {
        Some(ValidationErrorView::RoundZeroWithParents(pre_unit))
    } else if round > 0 && n_parents < limits.threshold.0 {
        Some(ValidationErrorView::NotEnoughParents(pre_unit))
    } else if round > 0 && !nodes::has(mask, pre_unit.coord.creator) {
        Some(ValidationErrorView::NotDescendantOfPreviousUnit(pre_unit))
    } else {
        None
    }
}

/// What is wrong, if anything, with a unit whose signature is correct or not.
pub open spec fn verdict<V, D, S>(
    limits: Limits,
    correctly_signed: bool,
    unit: SignedView<FullUnitView<V, D>, S>,
) -> Option<ValidationErrorView<V, D, S>> {
    let full_unit = unit.signable;
    if !correctly_signed {
        Some(ValidationErrorView::WrongSignature(unit))
    } else if full_unit.session_id != limits.session_id {
        Some(ValidationErrorView::WrongSession(full_unit))
    } else if full_unit.round() > limits.max_round {
        Some(ValidationErrorView::RoundTooHigh(full_unit))
    } else if full_unit.creator().0 >= limits.n_members.0 {
        Some(ValidationErrorView::UnknownCreator(full_unit))
    } else {
        parents_verdict(limits, full_unit.pre_unit)
    }
}

/// The message of an error.
pub open spec fn error_text<H: Hasher, D: Data, S: Data>(
    error: ValidationErrorView<HashOf<H>, D::V, S::V>,
) -> Seq<char> {
    match error {
        ValidationErrorView::WrongSignature(u) => "wrongly signed unit: "@ + UncheckedSignedUnit::<
            H,
            D,
            S,
        >::shown(u),
        ValidationErrorView::WrongSession(u) => "unit from wrong session: "@ + FullUnit::<H, D>::shown(u),
        ValidationErrorView::RoundTooHigh(u) => "unit with too high round"@ + text::decimal(
            u.round() as nat,
        ) + ": "@ + FullUnit::<H, D>::shown(u),
        ValidationErrorView::UnknownCreator(u) => "unit by nonexistent creator "@ + text::named(
            "NodeIndex"@,
            u.creator().0 as nat,
        ) + ": "@ + FullUnit::<H, D>::shown(u),
        ValidationErrorView::WrongNumberOfMembers(u) => {
            "wrong number of members implied by unit "@ + text::named(
                "NodeCount"@,
                u.control_hash.parents_mask.len(),
            ) + ": "@ + PreUnit::<H>::shown(u)
        },
        ValidationErrorView::RoundZeroWithParents(u) => "zero round unit with parents: "@
            + PreUnit::<H>::shown(u),
        ValidationErrorView::NotEnoughParents(u) => "nonzero round unit with only "@
            + text::named("NodeCount"@, nodes::elements(u.control_hash.parents_mask).len())
            + " parents: "@ + PreUnit::<H>::shown(u),
        ValidationErrorView::NotDescendantOfPreviousUnit(u) => {
            "nonzero round unit is not descendant of its creator's previous unit: "@
                + PreUnit::<H>::shown(u)
        },
    }
}

impl<H: Hasher, D: Data, S: Data> ValidationError<H, D, S> {
    /// The message of the error.
    pub fn text(&self) -> (out: String)
        ensures
            out@ == error_text::<H, D, S>(self.deep_view()),
    {
        let mut out: String = String::new();
        match self {
            ValidationError::WrongSignature(u) => {
                out.append("wrongly signed unit: ");
                u.show(&mut out);
            },
            ValidationError::WrongSession(u) => {
                out.append("unit from wrong session: ");
                u.show(&mut out);
            },
            ValidationError::RoundTooHigh(u) => {
                out.append("unit with too high round");
                append_decimal(&mut out, u.round() as u64);
                out.append(": ");
                u.show(&mut out);
            },
            ValidationError::UnknownCreator(u) => {
                out.append("unit by nonexistent creator ");
                append_named(&mut out, "NodeIndex", u.creator().0 as u64);
                out.append(": ");
                u.show(&mut out);
            },
            ValidationError::WrongNumberOfMembers(u) => {
                out.append("wrong number of members implied by unit ");
                append_named(&mut out, "NodeCount", u.n_members().0 as u64);
                out.append(": ");
                u.show(&mut out);
            },
            ValidationError::RoundZeroWithParents(u) => {
                out.append("zero round unit with parents: ");
                u.show(&mut out);
            },
            ValidationError::NotEnoughParents(u) => {
                out.append("nonzero round unit with only ");
                append_named(&mut out, "NodeCount", u.n_parents().0 as u64);
                out.append(" parents: ");
                u.show(&mut out);
            },
            ValidationError::NotDescendantOfPreviousUnit(u) => {
                out.append("nonzero round unit is not descendant of its creator's previous unit: ");
                u.show(&mut out);
            },
        }
        proof {
            assert(out@ =~= error_text::<H, D, S>(self.deep_view()));
        }
        out
    }

    /// A unit that failed the check of its signature is wrongly signed.
    pub fn from_signature_error(se: SignatureError<FullUnit<H, D>, S>) -> (error: Self)
        ensures
            error.deep_view() == ValidationErrorView::<HashOf<H>, D::V, S::V>::WrongSignature(
                se.unchecked.deep_view(),
            ),
    {
        ValidationError::WrongSignature(se.unchecked)
    }
}

/// Checks units on their own.
pub struct Validator<'a, K: Keychain> {
    session_id: SessionId,
    keychain: &'a K,
    max_round: Round,
    n_members: NodeCount,
    threshold: NodeCount,
}

impl<'a, K: Keychain> Validator<'a, K> {
    /// What the units are compared with.
    pub closed spec fn limits(&self) -> Limits {
        Limits {
            session_id: self.session_id,
            max_round: self.max_round,
            n_members: self.n_members,
            threshold: self.threshold,
        }
    }

    /// The keys that signatures are checked with.
    pub closed spec fn keys(&self) -> K {
        *self.keychain
    }

    pub fn new(
        session_id: SessionId,
        keychain: &'a K,
        max_round: Round,
        n_members: NodeCount,
        threshold: NodeCount,
    ) -> (result: Self)
        ensures
            result.limits() == (Limits { session_id, max_round, n_members, threshold }),
            result.keys() == *keychain,
    {
        Validator { session_id, keychain, max_round, n_members, threshold }
    }

    /// The member whose keys these are.
    pub fn index(&self) -> (index: NodeIndex)
        ensures
            index == self.keys().node(),
    {
        self.keychain.index()
    }

    /// What is wrong, if anything, with a unit.
    pub open spec fn verdict<H: Hasher, D: Data>(
        &self,
        unit: SignedView<FullUnitView<HashOf<H>, D::V>, SignatureOf<K>>,
    ) -> Option<ValidationErrorView<HashOf<H>, D::V, SignatureOf<K>>> {
        verdict(
            self.limits(),
            signed::signed_by_owner::<FullUnit<H, D>, K>(self.keys(), unit),
            unit,
        )
    }

    /// Checks the signature, session, round, creator and number of parents of a unit.
    pub fn validate_unit<H: Hasher, D: Data>(
        &self,
        uu: UncheckedSignedUnit<H, D, K::Signature>,
    ) -> (result: Result<
        SignedUnit<H, D, K::Signature>,
        ValidationError<H, D, K::Signature>,
    >)
        ensures
            match result {
                Ok(su) => self.verdict::<H, D>(uu.deep_view()) is None && su.deep_view()
                    == uu.deep_view(),
                Err(e) => self.verdict::<H, D>(uu.deep_view()) == Some(e.deep_view()),
            },
    {
        let su: SignedUnit<H, D, K::Signature> = match uu.check(self.keychain) {
            Ok(su) => su,
            Err(e) => {
                return Err(ValidationError::from_signature_error(e));
            },
        };
        let full_unit: &FullUnit<H, D> = su.as_signable();
        if full_unit.session_id() != self.session_id {
            return Err(ValidationError::WrongSession(full_unit.copy()));
        }
        if full_unit.round() > self.max_round {
            return Err(ValidationError::RoundTooHigh(full_unit.copy()));
        }
        if full_unit.creator().0 >= self.n_members.0 {
            return Err(ValidationError::UnknownCreator(full_unit.copy()));
        }
        self.validate_unit_parents(su)
    }

    fn validate_unit_parents<H: Hasher, D: Data>(&self, su: SignedUnit<H, D, K::Signature>) -> (result:
        Result<SignedUnit<H, D, K::Signature>, ValidationError<H, D, K::Signature>>)
        ensures
            match result {
                Ok(unit) => parents_verdict::<HashOf<H>, D::V, SignatureOf<K>>(
                    self.limits(),
                    su.deep_view().signable.pre_unit,
                ) is None && unit.deep_view() == su.deep_view(),
                Err(e) => parents_verdict::<HashOf<H>, D::V, SignatureOf<K>>(
                    self.limits(),
                    su.deep_view().signable.pre_unit,
                ) == Some(e.deep_view()),
            },
    {
        let pre_unit: &PreUnit<H> = su.as_signable().as_pre_unit();
        if pre_unit.n_members() != self.n_members {
            return Err(ValidationError::WrongNumberOfMembers(pre_unit.copy()));
        }
        let round: Round = pre_unit.round();
        let n_parents: NodeCount = pre_unit.n_parents();
        if round == 0 && n_parents.0 > 0 {
            return Err(ValidationError::RoundZeroWithParents(pre_unit.copy()));
        }
        if round > 0 && n_parents.0 < self.threshold.0 {
            return Err(ValidationError::NotEnoughParents(pre_unit.copy()));
        }
        if round > 0 && !pre_unit.control_hash().has_parent(pre_unit.creator()) {
            return Err(ValidationError::NotDescendantOfPreviousUnit(pre_unit.copy()));
        }
        Ok(su)
    }
}

/// An accepted unit is correctly signed, belongs to the session and has a known creator and a round
/// within the limit; it has no parents in round zero, and later at least the threshold of them, the
/// previous unit of its creator among them.
pub proof fn law_accepted_unit<H: Hasher, D: Data, K: Keychain>(
    validator: Validator<K>,
    unit: SignedView<FullUnitView<HashOf<H>, D::V>, SignatureOf<K>>,
)
    requires
        validator.verdict::<H, D>(unit) is None,
    ensures
        signed::signed_by_owner::<FullUnit<H, D>, K>(validator.keys(), unit),
        unit.signable.session_id == validator.limits().session_id,
        unit.signable.round() <= validator.limits().max_round,
        unit.signable.creator().0 < validator.limits().n_members.0,
        unit.signable.pre_unit.control_hash.parents_mask.len() == validator.limits().n_members.0,
        unit.signable.round() == 0 ==> nodes::elements(
            unit.signable.pre_unit.control_hash.parents_mask,
        ).len() == 0,
        unit.signable.round() > 0 ==> nodes::elements(
            unit.signable.pre_unit.control_hash.parents_mask,
        ).len() >= validator.limits().threshold.0 && nodes::has(
            unit.signable.pre_unit.control_hash.parents_mask,
            unit.signable.creator(),
        ),
{
}

/// Everything that a unit has to satisfy to be accepted: it is signed by its creator, of the
/// session, of a round within the limit, by a member and for a committee of the right size; in round
/// zero it names no parent, later at least the threshold of members, its creator among them.
pub open spec fn acceptable<H: Hasher, D: Data, K: Keychain>(
    keys: K,
    limits: Limits,
    unit: SignedView<FullUnitView<HashOf<H>, D::V>, SignatureOf<K>>,
) -> bool {
    let creator = unit.signable.pre_unit.coord.creator;
    let round = unit.signable.pre_unit.coord.round;
    let mask = unit.signable.pre_unit.control_hash.parents_mask;
    let named = Set::new(|i: int| 0 <= i < mask.len() && mask[i]);
    &&& keys.verifies(FullUnit::<H, D>::message_of(unit.signable), unit.signature, creator)
    &&& unit.signable.session_id == limits.session_id
    &&& round <= limits.max_round
    &&& creator.0 < limits.n_members.0
    &&& mask.len() == limits.n_members.0
    &&& round == 0 ==> forall|i: int| 0 <= i < mask.len() ==> !#[trigger] mask[i]
    &&& round > 0 ==> named.len() >= limits.threshold.0 && mask[creator.0 as int]
}

/// The members that a mask names, counted.
proof fn lemma_named(mask: Seq<bool>)
    requires
        mask.len() <= usize::MAX,
    ensures
        Set::new(|i: int| 0 <= i < mask.len() && mask[i]).finite(),
        Set::new(|i: int| 0 <= i < mask.len() && mask[i]).len() == nodes::elements(mask).len(),
    decreases mask.len(),
{
    let named = Set::new(|i: int| 0 <= i < mask.len() && mask[i]);
    if mask.len() > 0 {
        let rest = mask.drop_last();
        lemma_named(rest);
        let before = Set::new(|i: int| 0 <= i < rest.len() && rest[i]);
        let n = rest.len() as int;
        if mask.last() {
            assert(named =~= before.insert(n));
        } else {
            assert(named =~= before);
        }
    } else {
        assert(named =~= Set::empty());
    }
}

/// A unit is accepted exactly if it is signed by its creator, of the session, of a round within the
/// limit, by a member of the committee and for a committee of that size, and names no parents in
/// round zero and later at least the threshold of them, its creator's previous unit among them. Its
/// data, or that it has none, makes no difference.
pub proof fn law_acceptable_unit_accepted<H: Hasher, D: Data, K: Keychain>(
    validator: Validator<K>,
    unit: SignedView<FullUnitView<HashOf<H>, D::V>, SignatureOf<K>>,
)
    ensures
        validator.verdict::<H, D>(unit) is None <==> acceptable::<H, D, K>(
            validator.keys(),
            validator.limits(),
            unit,
        ),
{
    let mask = unit.signable.pre_unit.control_hash.parents_mask;
    if mask.len() == validator.limits().n_members.0 {
        lemma_named(mask);
        nodes::lemma_elements(mask);
        let named = Set::new(|i: int| 0 <= i < mask.len() && mask[i]);
        if exists|i: int| 0 <= i < mask.len() && #[trigger] mask[i] {
            let i = choose|i: int| 0 <= i < mask.len() && #[trigger] mask[i];
            assert(named.contains(i));
            if named.len() == 0 {
                named.lemma_len0_is_empty();
            }
        } else {
            assert(named =~= Set::empty());
        }
    }
}

/// The data of a unit has no say in whether its signature, session, round, creator and parents are
/// right: two units that differ in their data alone, both correctly signed, are judged alike.
pub proof fn law_data_not_judged<H: Hasher, D: Data, K: Keychain>(
    validator: Validator<K>,
    one: SignedView<FullUnitView<HashOf<H>, D::V>, SignatureOf<K>>,
    other: SignedView<FullUnitView<HashOf<H>, D::V>, SignatureOf<K>>,
)
    requires
        signed::signed_by_owner::<FullUnit<H, D>, K>(validator.keys(), one),
        signed::signed_by_owner::<FullUnit<H, D>, K>(validator.keys(), other),
        one.signable.pre_unit == other.signable.pre_unit,
        one.signable.session_id == other.signable.session_id,
    ensures
        (validator.verdict::<H, D>(one) is None) == (validator.verdict::<H, D>(other) is None),
{
}

/// A refused unit is refused for something that is wrong with it, and the error shows that unit.
pub proof fn law_refused_for_a_reason<H: Hasher, D: Data, K: Keychain>(
    validator: Validator<K>,
    unit: SignedView<FullUnitView<HashOf<H>, D::V>, SignatureOf<K>>,
)
    ensures
        ({
            let limits = validator.limits();
            let full = unit.signable;
            let mask = full.pre_unit.control_hash.parents_mask;
            let named = Set::new(|i: int| 0 <= i < mask.len() && mask[i]);
            let round = full.pre_unit.coord.round;
            let creator = full.pre_unit.coord.creator;
            let correctly_signed = validator.keys().verifies(
                FullUnit::<H, D>::message_of(full),
                unit.signature,
                creator,
            );
            match validator.verdict::<H, D>(unit) {
                None => true,
                Some(ValidationErrorView::WrongSignature(shown)) => !correctly_signed && shown
                    == unit,
                Some(ValidationErrorView::WrongSession(shown)) => full.session_id
                    != limits.session_id && shown == full,
                Some(ValidationErrorView::RoundTooHigh(shown)) => round > limits.max_round && shown
                    == full,
                Some(ValidationErrorView::UnknownCreator(shown)) => creator.0 >= limits.n_members.0
                    && shown == full,
                Some(ValidationErrorView::WrongNumberOfMembers(shown)) => mask.len()
                    != limits.n_members.0 && shown == full.pre_unit,
                Some(ValidationErrorView::RoundZeroWithParents(shown)) => {
                    &&& round == 0
                    &&& exists|i: int| 0 <= i < mask.len() && #[trigger] mask[i]
                    &&& shown == full.pre_unit
                },
                Some(ValidationErrorView::NotEnoughParents(shown)) => round > 0 && named.len()
                    < limits.threshold.0 && shown == full.pre_unit,
                Some(ValidationErrorView::NotDescendantOfPreviousUnit(shown)) => {
                    &&& round > 0
                    &&& creator.0 < mask.len()
                    &&& !mask[creator.0 as int]
                    &&& shown == full.pre_unit
                },
            }
        }),
{
    let mask = unit.signable.pre_unit.control_hash.parents_mask;
    if mask.len() == validator.limits().n_members.0 {
        lemma_named(mask);
        nodes::lemma_elements(mask);
        if nodes::elements(mask).len() > 0 {
            let first = nodes::elements(mask)[0];
            assert(nodes::elements(mask).contains(first));
            assert(nodes::has(mask, first));
            assert(mask[first.0 as int]);
        }
    }
}

} // verus!
