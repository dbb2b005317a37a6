//! Backup of units and alerts: what is written, what is read, and where to start from.
use crate::alerts::{Alert, AlertView, SignedUnitView};
use crate::codec_error;
use crate::codec_error::{short_input, CodecError};
use crate::collections::VecSet;
use crate::crypto::{HashOf, Hasher};
use crate::data;
use crate::data::{decode_all, part_failure, show_variant, Data, Encoding};
use crate::nodes;
use crate::nodes::{NodeIndex, Round, SessionId};
use crate::signed::{Multisigned, SignedView};
use crate::text;
use crate::text::{append_decimal, append_named};
use crate::units::{FullUnit, FullUnitView, UncheckedSignedUnit, UnitCoord};
use vstd::prelude::*;
use vstd::string::StringExecFns;

verus! {

/// What is saved.
pub enum BackupItem<H: Hasher, D: Data, S: Data, P: Data> {
    Unit(UncheckedSignedUnit<H, D, S>),
    AlertData(AlertData<H, D, S, P>),
}

/// What is saved of alerts.
pub enum AlertData<H: Hasher, D: Data, S: Data, P: Data> {
    OwnAlert(Alert<H, D, S>),
    NetworkAlert(Alert<H, D, S>),
    MultisignedHash(Multisigned<H::Hash, P>),
}

/// The model of what is saved.
pub enum BackupItemView<V, D, S, P> {
    Unit(SignedUnitView<V, D, S>),
    AlertData(AlertDataView<V, D, S, P>),
}

/// The model of what is saved of alerts.
pub enum AlertDataView<V, D, S, P> {
    OwnAlert(AlertView<V, D, S>),
    NetworkAlert(AlertView<V, D, S>),
    MultisignedHash(SignedView<V, P>),
}

impl<H: Hasher, D: Data, S: Data, P: Data> DeepView for AlertData<H, D, S, P> {
    type V = AlertDataView<HashOf<H>, D::V, S::V, P::V>;

    open spec fn deep_view(&self) -> AlertDataView<HashOf<H>, D::V, S::V, P::V> {
        match self {
            AlertData::OwnAlert(alert) => AlertDataView::OwnAlert(alert.deep_view()),
            AlertData::NetworkAlert(alert) => AlertDataView::NetworkAlert(alert.deep_view()),
            AlertData::MultisignedHash(multisigned) => AlertDataView::MultisignedHash(
                multisigned.deep_view(),
            ),
        }
    }
}

impl<H: Hasher, D: Data, S: Data, P: Data> DeepView for BackupItem<H, D, S, P> {
    type V = BackupItemView<HashOf<H>, D::V, S::V, P::V>;

    open spec fn deep_view(&self) -> BackupItemView<HashOf<H>, D::V, S::V, P::V> {
        match self {
            BackupItem::Unit(unit) => BackupItemView::Unit(unit.deep_view()),
            BackupItem::AlertData(alert_data) => BackupItemView::AlertData(alert_data.deep_view()),
        }
    }
}

impl<H: Hasher, D: Data, S: Data, P: Data> Encoding for AlertData<H, D, S, P> {
    open spec fn valid(v: AlertDataView<HashOf<H>, D::V, S::V, P::V>) -> bool {
        match v {
            AlertDataView::OwnAlert(x) => <Alert<H, D, S>>::valid(x),
            AlertDataView::NetworkAlert(x) => <Alert<H, D, S>>::valid(x),
            AlertDataView::MultisignedHash(x) => <Multisigned<H::Hash, P>>::valid(x),
        }
    }

    open spec fn encoded(v: AlertDataView<HashOf<H>, D::V, S::V, P::V>) -> Seq<u8> {
        match v {
            AlertDataView::OwnAlert(x) => seq![0u8] + <Alert<H, D, S>>::encoded(x),
            AlertDataView::NetworkAlert(x) => seq![1u8] + <Alert<H, D, S>>::encoded(x),
            AlertDataView::MultisignedHash(x) => seq![2u8] + <Multisigned<H::Hash, P>>::encoded(x),
        }
    }

    open spec fn failure(bytes: Seq<u8>) -> Seq<Seq<char>> {
        if bytes.len() == 0 {
            seq!["Could not decode `AlertData`, failed to read variant byte"@, short_input()]
        } else if bytes[0] == 0 {
            part_failure::<Alert<H, D, S>>("Could not decode `AlertData::OwnAlert.0`"@, bytes.skip(1))
        } else if bytes[0] == 1 {
            part_failure::<Alert<H, D, S>>("Could not decode `AlertData::NetworkAlert.0`"@, bytes.skip(1))
        } else if bytes[0] == 2 {
            part_failure::<Multisigned<H::Hash, P>>("Could not decode `AlertData::MultisignedHash.0`"@, bytes.skip(1))
        } else {
            seq!["Could not decode `AlertData`, variant doesn't exist"@]
        }
    }

    open spec fn in_bulk() -> bool {
        false
    }

    open spec fn shown(v: AlertDataView<HashOf<H>, D::V, S::V, P::V>) -> Seq<char> {
        match v {
            AlertDataView::OwnAlert(x) => "OwnAlert"@ + "("@ + <Alert<H, D, S>>::shown(x) + ")"@,
            AlertDataView::NetworkAlert(x) => "NetworkAlert"@ + "("@ + <Alert<H, D, S>>::shown(x) + ")"@,
            AlertDataView::MultisignedHash(x) => "MultisignedHash"@ + "("@ + <Multisigned<H::Hash, P>>::shown(x) + ")"@,
        }
    }
}

impl<H: Hasher, D: Data, S: Data, P: Data> Data for AlertData<H, D, S, P> {
    proof fn lemma_valid(&self) {
        match self {
            AlertData::OwnAlert(x) => x.lemma_valid(),
            AlertData::NetworkAlert(x) => x.lemma_valid(),
            AlertData::MultisignedHash(x) => x.lemma_valid(),
        }
    }

    proof fn lemma_prefix_free(v: AlertDataView<HashOf<H>, D::V, S::V, P::V>, w: AlertDataView<HashOf<H>, D::V, S::V, P::V>, bytes: Seq<u8>) {
        assert(Self::encoded(v)[0] == bytes[0]);
        assert(Self::encoded(w)[0] == bytes[0]);
        match (v, w) {
            (AlertDataView::OwnAlert(x), AlertDataView::OwnAlert(y)) => {
                crate::data::lemma_concat_prefix(seq![0u8], <Alert<H, D, S>>::encoded(x), bytes);
                crate::data::lemma_concat_prefix(seq![0u8], <Alert<H, D, S>>::encoded(y), bytes);
                <Alert<H, D, S>>::lemma_prefix_free(x, y, bytes.skip(1));
            },
            (AlertDataView::NetworkAlert(x), AlertDataView::NetworkAlert(y)) => {
                crate::data::lemma_concat_prefix(seq![1u8], <Alert<H, D, S>>::encoded(x), bytes);
                crate::data::lemma_concat_prefix(seq![1u8], <Alert<H, D, S>>::encoded(y), bytes);
                <Alert<H, D, S>>::lemma_prefix_free(x, y, bytes.skip(1));
            },
            (AlertDataView::MultisignedHash(x), AlertDataView::MultisignedHash(y)) => {
                crate::data::lemma_concat_prefix(seq![2u8], <Multisigned<H::Hash, P>>::encoded(x), bytes);
                crate::data::lemma_concat_prefix(seq![2u8], <Multisigned<H::Hash, P>>::encoded(y), bytes);
                <Multisigned<H::Hash, P>>::lemma_prefix_free(x, y, bytes.skip(1));
            },
            _ => {},
        }
    }

    fn copy(&self) -> (other: Self) {
        match self {
            AlertData::OwnAlert(x) => AlertData::OwnAlert(x.copy()),
            AlertData::NetworkAlert(x) => AlertData::NetworkAlert(x.copy()),
            AlertData::MultisignedHash(x) => AlertData::MultisignedHash(x.copy()),
        }
    }

    fn equals(&self, other: &Self) -> (equal: bool) {
        match (self, other) {
            (AlertData::OwnAlert(x), AlertData::OwnAlert(y)) => x.equals(y),
            (AlertData::NetworkAlert(x), AlertData::NetworkAlert(y)) => x.equals(y),
            (AlertData::MultisignedHash(x), AlertData::MultisignedHash(y)) => x.equals(y),
            _ => false,
        }
    }

    fn encode_to(&self, out: &mut Vec<u8>) {
        let ghost start = out@;
        match self {
            AlertData::OwnAlert(x) => {
                out.push(0);
                x.encode_to(out);
            },
            AlertData::NetworkAlert(x) => {
                out.push(1);
                x.encode_to(out);
            },
            AlertData::MultisignedHash(x) => {
                out.push(2);
                x.encode_to(out);
            },
        }
        proof {
            assert(out@ =~= start + Self::encoded(self.deep_view()));
        }
    }

    #[verifier::rlimit(20)]
    fn decode(input: &Vec<u8>, pos: usize) -> (result: Option<(Self, usize)>) {
        let ghost rest = input@.skip(pos as int);
        if pos < input.len() {
            proof {
                assert(rest.skip(1) =~= input@.skip(pos + 1));
            }
            if input[pos] == 0 {
                if let Some((x, end)) = <Alert<H, D, S>>::decode(input, pos + 1) {
                    proof {
                        assert(input@.subrange(pos as int, end as int) =~= seq![0u8]
                            + input@.subrange(pos + 1, end as int));
                    }
                    return Some((AlertData::OwnAlert(x), end));
                }
            } else if input[pos] == 1 {
                if let Some((x, end)) = <Alert<H, D, S>>::decode(input, pos + 1) {
                    proof {
                        assert(input@.subrange(pos as int, end as int) =~= seq![1u8]
                            + input@.subrange(pos + 1, end as int));
                    }
                    return Some((AlertData::NetworkAlert(x), end));
                }
            } else if input[pos] == 2 {
                if let Some((x, end)) = <Multisigned<H::Hash, P>>::decode(input, pos + 1) {
                    proof {
                        assert(input@.subrange(pos as int, end as int) =~= seq![2u8]
                            + input@.subrange(pos + 1, end as int));
                    }
                    return Some((AlertData::MultisignedHash(x), end));
                }
            }
        }
        proof {
            assert forall|v: AlertDataView<HashOf<H>, D::V, S::V, P::V>| Self::valid(v) implies !(
            #[trigger] Self::encoded(v)).is_prefix_of(rest) by {
                if Self::encoded(v).is_prefix_of(rest) {
                    assert(Self::encoded(v)[0] == rest[0]);
                    match v {
                        AlertDataView::OwnAlert(x) => {
                            crate::data::lemma_concat_prefix(
                                seq![0u8],
                                <Alert<H, D, S>>::encoded(x),
                                rest,
                            );
                            assert(!<Alert<H, D, S>>::encoded(x).is_prefix_of(rest.skip(1)));
                        },
                        AlertDataView::NetworkAlert(x) => {
                            crate::data::lemma_concat_prefix(
                                seq![1u8],
                                <Alert<H, D, S>>::encoded(x),
                                rest,
                            );
                            assert(!<Alert<H, D, S>>::encoded(x).is_prefix_of(rest.skip(1)));
                        },
                        AlertDataView::MultisignedHash(x) => {
                            crate::data::lemma_concat_prefix(
                                seq![2u8],
                                <Multisigned<H::Hash, P>>::encoded(x),
                                rest,
                            );
                            assert(!<Multisigned<H::Hash, P>>::encoded(x).is_prefix_of(rest.skip(1)));
                        },
                    }
                }
            }
        }
        None
    }

    fn explain(input: &Vec<u8>, pos: usize) -> (error: CodecError) {
        let ghost rest = input@.skip(pos as int);
        if pos == input.len() {
            let cause: CodecError = CodecError::new(
                String::from_str("Not enough data to fill buffer"),
            );
            let error: CodecError = cause.chain(
                "Could not decode `AlertData`, failed to read variant byte",
            );
            proof {
                assert(error@ =~= Self::failure(rest));
            }
            return error;
        }
        proof {
            assert(rest.skip(1) =~= input@.skip(pos + 1));
        }
        if input[pos] == 0 {
            proof {
                assert forall|x: <Alert<H, D, S> as DeepView>::V| <Alert<H, D, S>>::valid(x) implies !(
                #[trigger] <Alert<H, D, S>>::encoded(x)).is_prefix_of(rest.skip(1)) by {
                    assert(seq![0u8].is_prefix_of(rest));
                    crate::data::lemma_concat_prefix(seq![0u8], <Alert<H, D, S>>::encoded(x), rest);
                    assert(!Self::encoded(AlertDataView::OwnAlert(x)).is_prefix_of(rest));
                }
            }
            return <Alert<H, D, S>>::explain(input, pos + 1).chain("Could not decode `AlertData::OwnAlert.0`");
        }
        if input[pos] == 1 {
            proof {
                assert forall|x: <Alert<H, D, S> as DeepView>::V| <Alert<H, D, S>>::valid(x) implies !(
                #[trigger] <Alert<H, D, S>>::encoded(x)).is_prefix_of(rest.skip(1)) by {
                    assert(seq![1u8].is_prefix_of(rest));
                    crate::data::lemma_concat_prefix(seq![1u8], <Alert<H, D, S>>::encoded(x), rest);
                    assert(!Self::encoded(AlertDataView::NetworkAlert(x)).is_prefix_of(rest));
                }
            }
            return <Alert<H, D, S>>::explain(input, pos + 1).chain("Could not decode `AlertData::NetworkAlert.0`");
        }
        if input[pos] == 2 {
            proof {
                assert forall|x: <Multisigned<H::Hash, P> as DeepView>::V| <Multisigned<H::Hash, P>>::valid(x) implies !(
                #[trigger] <Multisigned<H::Hash, P>>::encoded(x)).is_prefix_of(rest.skip(1)) by {
                    assert(seq![2u8].is_prefix_of(rest));
                    crate::data::lemma_concat_prefix(seq![2u8], <Multisigned<H::Hash, P>>::encoded(x), rest);
                    assert(!Self::encoded(AlertDataView::MultisignedHash(x)).is_prefix_of(rest));
                }
            }
            return <Multisigned<H::Hash, P>>::explain(input, pos + 1).chain("Could not decode `AlertData::MultisignedHash.0`");
        }
        CodecError::new(String::from_str("Could not decode `AlertData`, variant doesn't exist"))
    }

    fn reads_in_bulk() -> (bulk: bool) {
        false
    }

    fn show(&self, out: &mut String) {
        match self {
            AlertData::OwnAlert(x) => show_variant(out, "OwnAlert", x),
            AlertData::NetworkAlert(x) => show_variant(out, "NetworkAlert", x),
            AlertData::MultisignedHash(x) => show_variant(out, "MultisignedHash", x),
        }
    }
}

impl<H: Hasher, D: Data, S: Data, P: Data> Encoding for BackupItem<H, D, S, P> {
    open spec fn valid(v: BackupItemView<HashOf<H>, D::V, S::V, P::V>) -> bool {
        match v {
            BackupItemView::Unit(x) => <UncheckedSignedUnit<H, D, S>>::valid(x),
            BackupItemView::AlertData(x) => <AlertData<H, D, S, P>>::valid(x),
        }
    }

    open spec fn encoded(v: BackupItemView<HashOf<H>, D::V, S::V, P::V>) -> Seq<u8> {
        match v {
            BackupItemView::Unit(x) => seq![0u8] + <UncheckedSignedUnit<H, D, S>>::encoded(x),
            BackupItemView::AlertData(x) => seq![1u8] + <AlertData<H, D, S, P>>::encoded(x),
        }
    }

    open spec fn failure(bytes: Seq<u8>) -> Seq<Seq<char>> {
        if bytes.len() == 0 {
            seq!["Could not decode `BackupItem`, failed to read variant byte"@, short_input()]
        } else if bytes[0] == 0 {
            part_failure::<UncheckedSignedUnit<H, D, S>>("Could not decode `BackupItem::Unit.0`"@, bytes.skip(1))
        } else if bytes[0] == 1 {
            part_failure::<AlertData<H, D, S, P>>("Could not decode `BackupItem::AlertData.0`"@, bytes.skip(1))
        } else {
            seq!["Could not decode `BackupItem`, variant doesn't exist"@]
        }
    }

    open spec fn in_bulk() -> bool {
        false
    }

    open spec fn shown(v: BackupItemView<HashOf<H>, D::V, S::V, P::V>) -> Seq<char> {
        match v {
            BackupItemView::Unit(x) => "Unit"@ + "("@ + <UncheckedSignedUnit<H, D, S>>::shown(x) + ")"@,
            BackupItemView::AlertData(x) => "AlertData"@ + "("@ + <AlertData<H, D, S, P>>::shown(x) + ")"@,
        }
    }
}

impl<H: Hasher, D: Data, S: Data, P: Data> Data for BackupItem<H, D, S, P> {
    proof fn lemma_valid(&self) {
        match self {
            BackupItem::Unit(x) => x.lemma_valid(),
            BackupItem::AlertData(x) => x.lemma_valid(),
        }
    }

    proof fn lemma_prefix_free(v: BackupItemView<HashOf<H>, D::V, S::V, P::V>, w: BackupItemView<HashOf<H>, D::V, S::V, P::V>, bytes: Seq<u8>) {
        assert(Self::encoded(v)[0] == bytes[0]);
        assert(Self::encoded(w)[0] == bytes[0]);
        match (v, w) {
            (BackupItemView::Unit(x), BackupItemView::Unit(y)) => {
                crate::data::lemma_concat_prefix(seq![0u8], <UncheckedSignedUnit<H, D, S>>::encoded(x), bytes);
                crate::data::lemma_concat_prefix(seq![0u8], <UncheckedSignedUnit<H, D, S>>::encoded(y), bytes);
                <UncheckedSignedUnit<H, D, S>>::lemma_prefix_free(x, y, bytes.skip(1));
            },
            (BackupItemView::AlertData(x), BackupItemView::AlertData(y)) => {
                crate::data::lemma_concat_prefix(seq![1u8], <AlertData<H, D, S, P>>::encoded(x), bytes);
                crate::data::lemma_concat_prefix(seq![1u8], <AlertData<H, D, S, P>>::encoded(y), bytes);
                <AlertData<H, D, S, P>>::lemma_prefix_free(x, y, bytes.skip(1));
            },
            _ => {},
        }
    }

    fn copy(&self) -> (other: Self) {
        match self {
            BackupItem::Unit(x) => BackupItem::Unit(x.copy()),
            BackupItem::AlertData(x) => BackupItem::AlertData(x.copy()),
        }
    }

    fn equals(&self, other: &Self) -> (equal: bool) {
        match (self, other) {
            (BackupItem::Unit(x), BackupItem::Unit(y)) => x.equals(y),
            (BackupItem::AlertData(x), BackupItem::AlertData(y)) => x.equals(y),
            _ => false,
        }
    }

    fn encode_to(&self, out: &mut Vec<u8>) {
        let ghost start = out@;
        match self {
            BackupItem::Unit(x) => {
                out.push(0);
                x.encode_to(out);
            },
            BackupItem::AlertData(x) => {
                out.push(1);
                x.encode_to(out);
            },
        }
        proof {
            assert(out@ =~= start + Self::encoded(self.deep_view()));
        }
    }

    fn decode(input: &Vec<u8>, pos: usize) -> (result: Option<(Self, usize)>) {
        let ghost rest = input@.skip(pos as int);
        if pos < input.len() {
            proof {
                assert(rest.skip(1) =~= input@.skip(pos + 1));
            }
            if input[pos] == 0 {
                if let Some((x, end)) = <UncheckedSignedUnit<H, D, S>>::decode(input, pos + 1) {
                    proof {
                        assert(input@.subrange(pos as int, end as int) =~= seq![0u8]
                            + input@.subrange(pos + 1, end as int));
                    }
                    return Some((BackupItem::Unit(x), end));
                }
            } else if input[pos] == 1 {
                if let Some((x, end)) = <AlertData<H, D, S, P>>::decode(input, pos + 1) {
                    proof {
                        assert(input@.subrange(pos as int, end as int) =~= seq![1u8]
                            + input@.subrange(pos + 1, end as int));
                    }
                    return Some((BackupItem::AlertData(x), end));
                }
            }
        }
        proof {
            assert forall|v: BackupItemView<HashOf<H>, D::V, S::V, P::V>| Self::valid(v) implies !(
            #[trigger] Self::encoded(v)).is_prefix_of(rest) by {
                if Self::encoded(v).is_prefix_of(rest) {
                    assert(Self::encoded(v)[0] == rest[0]);
                    match v {
                        BackupItemView::Unit(x) => {
                            crate::data::lemma_concat_prefix(
                                seq![0u8],
                                <UncheckedSignedUnit<H, D, S>>::encoded(x),
                                rest,
                            );
                            assert(!<UncheckedSignedUnit<H, D, S>>::encoded(x).is_prefix_of(rest.skip(1)));
                        },
                        BackupItemView::AlertData(x) => {
                            crate::data::lemma_concat_prefix(
                                seq![1u8],
                                <AlertData<H, D, S, P>>::encoded(x),
                                rest,
                            );
                            assert(!<AlertData<H, D, S, P>>::encoded(x).is_prefix_of(rest.skip(1)));
                        },
                    }
                }
            }
        }
        None
    }

    fn explain(input: &Vec<u8>, pos: usize) -> (error: CodecError) {
        let ghost rest = input@.skip(pos as int);
        if pos == input.len() {
            let cause: CodecError = CodecError::new(
                String::from_str("Not enough data to fill buffer"),
            );
            let error: CodecError = cause.chain(
                "Could not decode `BackupItem`, failed to read variant byte",
            );
            proof {
                assert(error@ =~= Self::failure(rest));
            }
            return error;
        }
        proof {
            assert(rest.skip(1) =~= input@.skip(pos + 1));
        }
        if input[pos] == 0 {
            proof {
                assert forall|x: <UncheckedSignedUnit<H, D, S> as DeepView>::V| <UncheckedSignedUnit<H, D, S>>::valid(x) implies !(
                #[trigger] <UncheckedSignedUnit<H, D, S>>::encoded(x)).is_prefix_of(rest.skip(1)) by {
                    assert(seq![0u8].is_prefix_of(rest));
                    crate::data::lemma_concat_prefix(seq![0u8], <UncheckedSignedUnit<H, D, S>>::encoded(x), rest);
                    assert(!Self::encoded(BackupItemView::Unit(x)).is_prefix_of(rest));
                }
            }
            return <UncheckedSignedUnit<H, D, S>>::explain(input, pos + 1).chain("Could not decode `BackupItem::Unit.0`");
        }
        if input[pos] == 1 {
            proof {
                assert forall|x: <AlertData<H, D, S, P> as DeepView>::V| <AlertData<H, D, S, P>>::valid(x) implies !(
                #[trigger] <AlertData<H, D, S, P>>::encoded(x)).is_prefix_of(rest.skip(1)) by {
                    assert(seq![1u8].is_prefix_of(rest));
                    crate::data::lemma_concat_prefix(seq![1u8], <AlertData<H, D, S, P>>::encoded(x), rest);
                    assert(!Self::encoded(BackupItemView::AlertData(x)).is_prefix_of(rest));
                }
            }
            return <AlertData<H, D, S, P>>::explain(input, pos + 1).chain("Could not decode `BackupItem::AlertData.0`");
        }
        CodecError::new(String::from_str("Could not decode `BackupItem`, variant doesn't exist"))
    }

    fn reads_in_bulk() -> (bulk: bool) {
        false
    }

    fn show(&self, out: &mut String) {
        match self {
            BackupItem::Unit(x) => show_variant(out, "Unit", x),
            BackupItem::AlertData(x) => show_variant(out, "AlertData", x),
        }
    }
}

/// What can be wrong with what is read, apart from the reading itself.
#[derive(Debug, PartialEq, Eq)]
pub enum BackupReadError {
    /// The bytes are no list of items.
    Codec(CodecError),
    /// Some parent of the unit does not appear before it.
    InconsistentData(UnitCoord),
    /// The unit is not of the expected session but of another one.
    WrongSession(UnitCoord, SessionId, SessionId),
}

/// The message of an error.
pub open spec fn error_text(error: BackupReadError) -> Seq<char> {
    match error {
        BackupReadError::Codec(err) => {
            "received Codec error while decoding backup: "@ + codec_error::lines(err@, 0)
        },
        BackupReadError::InconsistentData(coord) => {
            "inconsistent backup data. Unit from round "@ + text::decimal(coord.round as nat)
                + " of creator "@ + text::named("NodeIndex"@, coord.creator.0 as nat)
                + " is missing a parent in backup."@
        },
        BackupReadError::WrongSession(coord, expected, actual) => {
            "unit from round "@ + text::decimal(coord.round as nat) + " of creator "@
                + text::named("NodeIndex"@, coord.creator.0 as nat)
                + " has a wrong session id in backup. Expected: "@ + text::decimal(
                expected as nat,
            ) + " got: "@ + text::decimal(actual as nat)
        },
    }
}

impl BackupReadError {
    /// The message of the error.
    pub fn text(&self) -> (out: String)
        ensures
            out@ == error_text(*self),
    {
        let mut out: String = String::new();
        match self {
            BackupReadError::Codec(err) => {
                out.append("received Codec error while decoding backup: ");
                out.append(err.text().as_str());
            },
            BackupReadError::InconsistentData(coord) => {
                out.append("inconsistent backup data. Unit from round ");
                append_decimal(&mut out, coord.round() as u64);
                out.append(" of creator ");
                append_named(&mut out, "NodeIndex", coord.creator().0 as u64);
                out.append(" is missing a parent in backup.");
            },
            BackupReadError::WrongSession(coord, expected, actual) => {
                out.append("unit from round ");
                append_decimal(&mut out, coord.round() as u64);
                out.append(" of creator ");
                append_named(&mut out, "NodeIndex", coord.creator().0 as u64);
                out.append(" has a wrong session id in backup. Expected: ");
                append_decimal(&mut out, *expected);
                out.append(" got: ");
                append_decimal(&mut out, *actual);
            },
        }
        proof {
            assert(out@ =~= error_text(*self));
        }
        out
    }
}

/// Turns items into the bytes that go to a writer.
pub struct BackupWriter<W> {
    inner: W,
}

/// Holds the reader that the bytes come from.
pub struct BackupReader<R> {
    inner: R,
}

impl<W> BackupWriter<W> {
    /// The writer itself.
    pub closed spec fn writer(&self) -> W {
        self.inner
    }

    pub fn new(write: W) -> (result: Self)
        ensures
            result.writer() == write,
    {
        BackupWriter { inner: write }
    }

    /// The bytes to be written for an item.
    pub fn to_write<T: Data>(item: &T) -> (bytes: Vec<u8>)
        ensures
            bytes@ == T::encoded(item.deep_view()),
    {
        item.encode()
    }

    /// Gives the writer away.
    pub fn into_inner(self) -> (writer: W)
        ensures
            writer == self.writer(),
    {
        self.inner
    }
}

impl<R> BackupReader<R> {
    /// The reader itself.
    pub closed spec fn reader(&self) -> R {
        self.inner
    }

    pub fn new(read: R) -> (result: Self)
        ensures
            result.reader() == read,
    {
        BackupReader { inner: read }
    }

    /// Gives the reader away.
    pub fn into_inner(self) -> (reader: R)
        ensures
            reader == self.reader(),
    {
        self.inner
    }
}

/// The units among the items, in order.
pub open spec fn units_of<V, D, S, P>(items: Seq<BackupItemView<V, D, S, P>>) -> Seq<
    FullUnitView<V, D>,
>
    decreases items.len(),
{
    if items.len() == 0 {
        seq![]
    } else {
        match items.last() {
            BackupItemView::Unit(unit) => units_of(items.drop_last()).push(unit.signable),
            _ => units_of(items.drop_last()),
        }
    }
}

/// Some of the units is at these coordinates.
pub open spec fn has_coord<V, D>(units: Seq<FullUnitView<V, D>>, coord: UnitCoord) -> bool {
    exists|i: int| 0 <= i < units.len() && (#[trigger] units[i]).coord() == coord
}

/// All the parents of a unit are among the given units. A unit of round zero has no parents.
pub open spec fn parents_among<V, D>(
    unit: FullUnitView<V, D>,
    units: Seq<FullUnitView<V, D>>,
) -> bool {
    let parents = nodes::elements(unit.pre_unit.control_hash.parents_mask);
    &&& unit.round() > 0 || parents.len() == 0
    &&& forall|i: int|
        0 <= i < parents.len() ==> has_coord(
            units,
            UnitCoord { round: (unit.round() - 1) as Round, creator: #[trigger] parents[i] },
        )
}

/// What is wrong, if anything, with a unit that was saved after the given ones.
pub open spec fn unit_error<V, D>(
    session_id: SessionId,
    before: Seq<FullUnitView<V, D>>,
    unit: FullUnitView<V, D>,
) -> Option<BackupReadError> {
    if unit.session_id != session_id {
        Some(BackupReadError::WrongSession(unit.coord(), session_id, unit.session_id))
    } else if !parents_among(unit, before) {
        Some(BackupReadError::InconsistentData(unit.coord()))
    } else {
        None
    }
}

/// All the units are of the session, each behind all its parents.
pub open spec fn consistent<V, D>(session_id: SessionId, units: Seq<FullUnitView<V, D>>) -> bool {
    forall|i: int|
        0 <= i < units.len() ==> #[trigger] unit_error(session_id, units.take(i), units[i]) is None
}

/// The first unit that something is wrong with gives the error.
pub open spec fn first_error<V, D>(
    session_id: SessionId,
    units: Seq<FullUnitView<V, D>>,
    error: BackupReadError,
) -> bool {
    exists|i: int|
        {
            &&& 0 <= i < units.len()
            &&& #[trigger] unit_error(session_id, units.take(i), units[i]) == Some(error)
            &&& consistent(session_id, units.take(i))
        }
}

/// Every item takes at least one byte.
proof fn lemma_item_len<H: Hasher, D: Data, S: Data, P: Data>()
    ensures
        forall|v: BackupItemView<HashOf<H>, D::V, S::V, P::V>|
            BackupItem::<H, D, S, P>::valid(v) ==> #[trigger] BackupItem::<H, D, S, P>::encoded(
                v,
            ).len() > 0,
{
}

/// All the parents of a unit are at the given coordinates.
pub open spec fn parents_at<V, D>(unit: FullUnitView<V, D>, coords: Set<UnitCoord>) -> bool {
    let parents = nodes::elements(unit.pre_unit.control_hash.parents_mask);
    &&& unit.round() > 0 || parents.len() == 0
    &&& forall|i: int|
        0 <= i < parents.len() ==> coords.contains(
            UnitCoord { round: (unit.round() - 1) as Round, creator: #[trigger] parents[i] },
        )
}

/// Items that can be saved.
pub open spec fn saved_items<H: Hasher, D: Data, S: Data, P: Data>(
    items: Seq<BackupItemView<HashOf<H>, D::V, S::V, P::V>>,
) -> bool {
    forall|i: int|
        0 <= i < items.len() ==> #[trigger] BackupItem::<H, D, S, P>::valid(items[i])
}

proof fn lemma_saved_items<H: Hasher, D: Data, S: Data, P: Data>(
    items: Vec<BackupItem<H, D, S, P>>,
)
    ensures
        saved_items::<H, D, S, P>(items.deep_view()),
{
    let all = items.deep_view();
    assert forall|i: int| 0 <= i < all.len() implies #[trigger] BackupItem::<H, D, S, P>::valid(
        all[i],
    ) by {
        items@[i].lemma_valid();
    }
}

/// Whether all the parents of a unit are at the given coordinates.
pub fn check_parents<H: Hasher, D: Data>(unit: &FullUnit<H, D>, coords: &VecSet<UnitCoord>) -> (result:
    bool)
    ensures
        result == parents_at(unit.deep_view(), coords.deep_view()),
{
    let parents: Vec<NodeIndex> = unit.control_hash().parents();
    let round: Round = unit.round();
    let n: usize = parents.len();
    let ghost all = nodes::elements(unit.deep_view().pre_unit.control_hash.parents_mask);
    for i in 0..n
        invariant
            n == parents@.len(),
            round == unit.deep_view().round(),
            all == nodes::elements(unit.deep_view().pre_unit.control_hash.parents_mask),
            parents@ == all,
            round > 0 || i == 0,
            forall|j: int|
                0 <= j < i ==> coords.deep_view().contains(
                    UnitCoord { round: (round - 1) as Round, creator: #[trigger] all[j] },
                ),
    {
        proof {
            assert(parents@[i as int] == all[i as int]);
        }
        if round == 0 || !coords.contains(&UnitCoord::new(round - 1, parents[i])) {
            return false;
        }
    }
    true
}

/// The bytes are no list of items.
pub open spec fn no_items<H: Hasher, D: Data, S: Data, P: Data>(bytes: Seq<u8>) -> bool {
    forall|items: Seq<BackupItemView<HashOf<H>, D::V, S::V, P::V>>|
        saved_items::<H, D, S, P>(items) ==> (#[trigger] data::encoded_items::<
            BackupItem<H, D, S, P>,
        >(items)) != bytes
}

/// Reads a backup: all its units have to be of the session, and each behind all its parents.
pub fn load_backup<H: Hasher, D: Data, S: Data, P: Data>(bytes: &Vec<u8>, session_id: SessionId) -> (result:
    Result<Vec<BackupItem<H, D, S, P>>, BackupReadError>)
    ensures
        match result {
            Ok(items) => {
                &&& data::encoded_items::<BackupItem<H, D, S, P>>(items.deep_view()) == bytes@
                &&& consistent(session_id, units_of(items.deep_view()))
            },
            Err(BackupReadError::Codec(err)) => {
                &&& err@ == data::first_failure::<BackupItem<H, D, S, P>>(bytes@)
                &&& no_items::<H, D, S, P>(bytes@)
            },
            Err(error) => exists|items: Seq<BackupItemView<HashOf<H>, D::V, S::V, P::V>>|
                {
                    &&& saved_items::<H, D, S, P>(items)
                    &&& #[trigger] data::encoded_items::<BackupItem<H, D, S, P>>(items) == bytes@
                    &&& first_error(session_id, units_of(items), error)
                },
        },
{
    proof {
        lemma_item_len::<H, D, S, P>();
    }
    let items: Vec<BackupItem<H, D, S, P>> = match decode_all(bytes) {
        Ok(items) => items,
        Err(err) => {
            return Err(BackupReadError::Codec(err));
        },
    };
    proof {
        lemma_saved_items::<H, D, S, P>(items);
    }
    let ghost all = items.deep_view();
    let mut already_loaded_coords: VecSet<UnitCoord> = VecSet::new();
    let n: usize = items.len();
    for i in 0..n
        invariant
            n == items@.len(),
            all == items.deep_view(),
            saved_items::<H, D, S, P>(all),
            data::encoded_items::<BackupItem<H, D, S, P>>(all) == bytes@,
            consistent(session_id, units_of(all.take(i as int))),
            forall|coord: UnitCoord| #[trigger]
                already_loaded_coords.deep_view().contains(coord) <==> has_coord(
                    units_of(all.take(i as int)),
                    coord,
                ),
    {
        let ghost before = units_of(all.take(i as int));
        proof {
            assert(all.take(i + 1).drop_last() =~= all.take(i as int));
            assert(all.take(i + 1).last() == items@[i as int].deep_view());
        }
        if let BackupItem::Unit(unit) = &items[i] {
            let full_unit: &FullUnit<H, D> = unit.as_signable();
            let coord: UnitCoord = full_unit.coord();
            let ghost view = full_unit.deep_view();
            proof {
                lemma_units_prefix(all, i as int);
                let units = units_of(all);
                let k = before.len() as int;
                assert(units.take(k) == before);
                assert(unit_error(session_id, units.take(k), units[k]) == unit_error(
                    session_id,
                    before,
                    view,
                ));
            }
            if full_unit.session_id() != session_id {
                return Err(
                    BackupReadError::WrongSession(coord, session_id, full_unit.session_id()),
                );
            }
            // Sanity check: verify that all unit's parents appeared in backup before it.
            proof {
                let coords = already_loaded_coords.deep_view();
                let parents = nodes::elements(view.pre_unit.control_hash.parents_mask);
                assert(parents_at(view, coords) <==> parents_among(view, before)) by {
                    assert forall|j: int| 0 <= j < parents.len() && view.round() > 0 implies (
                    coords.contains(
                        UnitCoord {
                            round: (view.round() - 1) as Round,
                            creator: #[trigger] parents[j],
                        },
                    ) <==> has_coord(
                        before,
                        UnitCoord { round: (view.round() - 1) as Round, creator: parents[j] },
                    )) by {}
                }
            }
            if !check_parents(full_unit, &already_loaded_coords) {
                return Err(BackupReadError::InconsistentData(coord));
            }
            let _ = already_loaded_coords.insert(coord);
            proof {
                let after = before.push(view);
                assert forall|c: UnitCoord| #[trigger]
                    already_loaded_coords.deep_view().contains(c) <==> has_coord(after, c) by {
                    if c == coord {
                        assert(after[before.len() as int].coord() == c);
                    }
                    if has_coord(before, c) {
                        let j = choose|j: int|
                            0 <= j < before.len() && (#[trigger] before[j]).coord() == c;
                        assert(after[j].coord() == c);
                    }
                    if has_coord(after, c) && c != coord {
                        let j = choose|j: int|
                            0 <= j < after.len() && (#[trigger] after[j]).coord() == c;
                        assert(before[j].coord() == c);
                    }
                }
                assert forall|j: int| 0 <= j < after.len() implies #[trigger] unit_error(
                    session_id,
                    after.take(j),
                    after[j],
                ) is None by {
                    if j < before.len() {
                        assert(after.take(j) =~= before.take(j));
                        assert(unit_error(session_id, before.take(j), before[j]) is None);
                    } else {
                        assert(after.take(j) =~= before);
                    }
                }
            }
        }
    }
    proof {
        assert(all.take(n as int) =~= all);
    }
    Ok(items)
}

/// The units of the first items are the first units.
proof fn lemma_units_prefix<V, D, S, P>(items: Seq<BackupItemView<V, D, S, P>>, i: int)
    requires
        0 <= i < items.len(),
    ensures
        units_of(items.take(i)).len() <= units_of(items).len(),
        units_of(items).take(units_of(items.take(i)).len() as int) == units_of(items.take(i)),
        items[i] matches BackupItemView::Unit(unit) ==> {
            &&& units_of(items.take(i)).len() < units_of(items).len()
            &&& units_of(items)[units_of(items.take(i)).len() as int] == unit.signable
        },
    decreases items.len(),
{
    let first = units_of(items.take(i));
    if i == items.len() - 1 {
        assert(items.take(i) =~= items.drop_last());
        assert(units_of(items).take(first.len() as int) =~= first);
    } else {
        let rest = units_of(items.drop_last());
        lemma_units_prefix(items.drop_last(), i);
        assert(items.drop_last().take(i) =~= items.take(i));
        assert(units_of(items).take(first.len() as int) =~= rest.take(first.len() as int));
    }
}

/// The round behind the last one of the given creator's units, or zero if there are none.
pub open spec fn is_next_round<V, D>(
    units: Seq<FullUnitView<V, D>>,
    index: NodeIndex,
    round: Round,
) -> bool {
    &&& forall|i: int|
        0 <= i < units.len() && (#[trigger] units[i]).creator() == index ==> units[i].round()
            < round
    &&& round == 0 || exists|i: int|
        0 <= i < units.len() && (#[trigger] units[i]).creator() == index && units[i].round()
            == round - 1
}

/// None of the given creator's units is of the last possible round.
pub open spec fn can_go_on<V, D>(units: Seq<FullUnitView<V, D>>, index: NodeIndex) -> bool {
    forall|i: int|
        0 <= i < units.len() && (#[trigger] units[i]).creator() == index ==> units[i].round()
            < u16::MAX
}

/// The round in which the given creator can go on.
pub fn next_round<H: Hasher, D: Data, S: Data, P: Data>(
    items: &Vec<BackupItem<H, D, S, P>>,
    index: NodeIndex,
) -> (round: Round)
    requires
        can_go_on(units_of(items.deep_view()), index),
    ensures
        is_next_round(units_of(items.deep_view()), index, round),
{
    let mut round: Round = 0;
    let n: usize = items.len();
    let ghost all = items.deep_view();
    for i in 0..n
        invariant
            n == items@.len(),
            all == items.deep_view(),
            can_go_on(units_of(all), index),
            is_next_round(units_of(all.take(i as int)), index, round),
    {
        let ghost before = units_of(all.take(i as int));
        proof {
            assert(all.take(i + 1).drop_last() =~= all.take(i as int));
            assert(all.take(i + 1).last() == items@[i as int].deep_view());
        }
        if let BackupItem::Unit(unit) = &items[i] {
            let full_unit: &FullUnit<H, D> = unit.as_signable();
            let ghost view = full_unit.deep_view();
            let ghost old_round = round;
            proof {
                lemma_units_prefix(all, i as int);
                assert(units_of(all)[before.len() as int] == view);
            }
            if full_unit.creator() == index && full_unit.round() >= round {
                round = full_unit.round() + 1;
            }
            proof {
                let after = before.push(view);
                assert(after[before.len() as int] == view);
                if round == old_round && round > 0 {
                    let j = choose|j: int|
                        0 <= j < before.len() && (#[trigger] before[j]).creator() == index
                            && before[j].round() == round - 1;
                    assert(after[j] == before[j]);
                }
                assert forall|j: int|
                    0 <= j < after.len() && (#[trigger] after[j]).creator()
                        == index implies after[j].round() < round by {
                    if j < before.len() {
                        assert(after[j] == before[j]);
                    }
                }
            }
        }
    }
    proof {
        assert(all.take(n as int) =~= all);
    }
    round
}

/// The round to start creating from: the one behind the last own unit in the backup. Nothing is
/// created if the other members were not heard from, or if they know of a later own unit; it is
/// safer not to continue than to create another unit for a round.
pub open spec fn start_from(backup: Round, collected: Option<Round>) -> Option<Round> {
    match collected {
        Some(collected) => if backup < collected {
            None
        } else {
            Some(backup)
        },
        None => None,
    }
}

/// Decides on the round to start from.
pub fn starting_round(next_round_backup: Round, next_round_collection: Option<Round>) -> (result:
    Option<Round>)
    ensures
        result == start_from(next_round_backup, next_round_collection),
{
    match next_round_collection {
        Some(next_round_collection) => {
            if next_round_backup < next_round_collection {
                // Our newest unit doesn't appear in the backup. This indicates a serious issue, for example
                // a different node running with the same pair of keys. It's safer not to continue.
                None
            } else {
                Some(next_round_backup)
            }
        },
        None => None,
    }
}

/// What loading a backup comes to: the items for the runway and the round that the own units in
/// the backup allow to go on from.
pub struct Loaded<H: Hasher, D: Data, S: Data, P: Data> {
    pub items: Vec<BackupItem<H, D, S, P>>,
    pub next_round: Round,
}

/// Why a backup cannot be started from.
#[derive(Debug, PartialEq, Eq)]
pub enum LoadingError {
    Read(BackupReadError),
    /// There already is an own unit for the last possible round.
    NoRoundsLeft,
}

/// The bytes are these items, nothing is wrong with them and the round is the one to go on from.
pub open spec fn loads<H: Hasher, D: Data, S: Data, P: Data>(
    bytes: Seq<u8>,
    index: NodeIndex,
    session_id: SessionId,
    items: Seq<BackupItemView<HashOf<H>, D::V, S::V, P::V>>,
    next_round: Round,
) -> bool {
    &&& data::encoded_items::<BackupItem<H, D, S, P>>(items) == bytes
    &&& consistent(session_id, units_of(items))
    &&& is_next_round(units_of(items), index, next_round)
}

/// The bytes cannot be started from, for this reason.
pub open spec fn fails<H: Hasher, D: Data, S: Data, P: Data>(
    bytes: Seq<u8>,
    index: NodeIndex,
    session_id: SessionId,
    error: LoadingError,
) -> bool {
    match error {
        LoadingError::NoRoundsLeft => exists|
            items: Seq<BackupItemView<HashOf<H>, D::V, S::V, P::V>>,
        |
            {
                &&& saved_items::<H, D, S, P>(items)
                &&& #[trigger] data::encoded_items::<BackupItem<H, D, S, P>>(items) == bytes
                &&& consistent(session_id, units_of(items))
                &&& !can_go_on(units_of(items), index)
            },
        LoadingError::Read(BackupReadError::Codec(err)) => {
            &&& err@ == data::first_failure::<BackupItem<H, D, S, P>>(bytes)
            &&& no_items::<H, D, S, P>(bytes)
        },
        LoadingError::Read(error) => exists|
            items: Seq<BackupItemView<HashOf<H>, D::V, S::V, P::V>>,
        |
            {
                &&& saved_items::<H, D, S, P>(items)
                &&& #[trigger] data::encoded_items::<BackupItem<H, D, S, P>>(items) == bytes
                &&& first_error(session_id, units_of(items), error)
            },
    }
}

/// Reads a backup and finds out the round to go on from.
pub fn load<H: Hasher, D: Data, S: Data, P: Data>(
    bytes: &Vec<u8>,
    index: NodeIndex,
    session_id: SessionId,
) -> (result: Result<Loaded<H, D, S, P>, LoadingError>)
    ensures
        match result {
            Ok(loaded) => loads::<H, D, S, P>(
                bytes@,
                index,
                session_id,
                loaded.items.deep_view(),
                loaded.next_round,
            ),
            Err(error) => fails::<H, D, S, P>(bytes@, index, session_id, error),
        },
{
    let items: Vec<BackupItem<H, D, S, P>> = match load_backup(bytes, session_id) {
        Ok(items) => items,
        Err(error) => {
            return Err(LoadingError::Read(error));
        },
    };
    proof {
        lemma_saved_items::<H, D, S, P>(items);
    }
    let n: usize = items.len();
    let ghost all = items.deep_view();
    for i in 0..n
        invariant
            n == items@.len(),
            all == items.deep_view(),
            saved_items::<H, D, S, P>(all),
            data::encoded_items::<BackupItem<H, D, S, P>>(all) == bytes@,
            consistent(session_id, units_of(all)),
            can_go_on(units_of(all.take(i as int)), index),
    {
        let ghost before = units_of(all.take(i as int));
        proof {
            assert(all.take(i + 1).drop_last() =~= all.take(i as int));
            assert(all.take(i + 1).last() == items@[i as int].deep_view());
        }
        if let BackupItem::Unit(unit) = &items[i] {
            let full_unit: &FullUnit<H, D> = unit.as_signable();
            proof {
                lemma_units_prefix(all, i as int);
                assert(units_of(all)[before.len() as int] == full_unit.deep_view());
            }
            if full_unit.creator() == index && full_unit.round() == u16::MAX {
                return Err(LoadingError::NoRoundsLeft);
            }
            proof {
                let after = before.push(full_unit.deep_view());
                assert forall|j: int|
                    0 <= j < after.len() && (#[trigger] after[j]).creator()
                        == index implies after[j].round() < u16::MAX by {
                    if j < before.len() {
                        assert(after[j] == before[j]);
                    }
                }
            }
        }
    }
    proof {
        assert(all.take(n as int) =~= all);
    }
    let next: Round = next_round(&items, index);
    Ok(Loaded { items, next_round: next })
}

/// Who hears of a saved item.
pub enum SavedFor<H: Hasher, D: Data, S: Data, P: Data> {
    Runway(UncheckedSignedUnit<H, D, S>),
    Alerter(AlertData<H, D, S, P>),
}

/// The runway hears of saved units, the alerter of the rest.
pub fn announce<H: Hasher, D: Data, S: Data, P: Data>(item: BackupItem<H, D, S, P>) -> (result:
    SavedFor<H, D, S, P>)
    ensures
        match result {
            SavedFor::Runway(unit) => item.deep_view() == BackupItemView::<
                HashOf<H>,
                D::V,
                S::V,
                P::V,
            >::Unit(unit.deep_view()),
            SavedFor::Alerter(alert_data) => item.deep_view() == BackupItemView::<
                HashOf<H>,
                D::V,
                S::V,
                P::V,
            >::AlertData(alert_data.deep_view()),
        },
{
    match item {
        BackupItem::Unit(unit) => SavedFor::Runway(unit),
        BackupItem::AlertData(alert_data) => SavedFor::Alerter(alert_data),
    }
}

/// Writing items one after another and reading the whole gives the items back.
pub proof fn law_load_of_save<H: Hasher, D: Data, S: Data, P: Data>(
    saved: Seq<BackupItem<H, D, S, P>>,
    loaded: Seq<BackupItem<H, D, S, P>>,
)
    requires
        data::encoded_items::<BackupItem<H, D, S, P>>(
            Seq::new(loaded.len(), |i: int| loaded[i].deep_view()),
        ) == data::encoded_items::<BackupItem<H, D, S, P>>(
            Seq::new(saved.len(), |i: int| saved[i].deep_view()),
        ),
    ensures
        loaded.len() == saved.len(),
        forall|i: int|
            0 <= i < saved.len() ==> (#[trigger] loaded[i]).deep_view() == saved[i].deep_view(),
{
    let v = Seq::new(loaded.len(), |i: int| loaded[i].deep_view());
    let w = Seq::new(saved.len(), |i: int| saved[i].deep_view());
    lemma_item_len::<H, D, S, P>();
    assert forall|i: int| 0 <= i < v.len() implies #[trigger] BackupItem::<H, D, S, P>::valid(
        v[i],
    ) by {
        loaded[i].lemma_valid();
    }
    assert forall|i: int| 0 <= i < w.len() implies #[trigger] BackupItem::<H, D, S, P>::valid(
        w[i],
    ) by {
        saved[i].lemma_valid();
    }
    data::lemma_items_injective::<BackupItem<H, D, S, P>>(v, w);
    assert forall|i: int| 0 <= i < saved.len() implies (#[trigger] loaded[i]).deep_view()
        == saved[i].deep_view() by {
        assert(v[i] == w[i]);
    }
}

/// In a backup that loads, every parent of a unit stands before it.
pub proof fn law_parents_first<V, D>(
    session_id: SessionId,
    units: Seq<FullUnitView<V, D>>,
    i: int,
    creator: NodeIndex,
)
    requires
        consistent(session_id, units),
        0 <= i < units.len(),
        nodes::elements(units[i].pre_unit.control_hash.parents_mask).contains(creator),
    ensures
        units[i].round() > 0,
        exists|j: int|
            0 <= j < i && (#[trigger] units[j]).coord() == (UnitCoord {
                round: (units[i].round() - 1) as Round,
                creator,
            }),
{
    let unit = units[i];
    assert(unit_error(session_id, units.take(i), units[i]) is None);
    let parents = nodes::elements(unit.pre_unit.control_hash.parents_mask);
    let k = choose|k: int| 0 <= k < parents.len() && parents[k] == creator;
    assert(parents[k] == creator);
    let coord = UnitCoord { round: (unit.round() - 1) as Round, creator: parents[k] };
    assert(has_coord(units.take(i), coord));
    let j = choose|j: int|
        0 <= j < units.take(i).len() && (#[trigger] units.take(i)[j]).coord() == coord;
    assert(units[j].coord() == coord);
}

/// The round to start from is behind every own unit in the backup, and behind every own unit that
/// the other members know of.
pub proof fn law_no_round_twice<V, D>(
    units: Seq<FullUnitView<V, D>>,
    index: NodeIndex,
    backup: Round,
    collected: Option<Round>,
    start: Round,
)
    requires
        is_next_round(units, index, backup),
        start_from(backup, collected) == Some(start),
    ensures
        forall|i: int|
            0 <= i < units.len() && (#[trigger] units[i]).creator() == index ==> units[i].round()
                < start,
        collected matches Some(round) && round <= start,
{
}

} // verus!
