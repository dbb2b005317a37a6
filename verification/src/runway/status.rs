//! Reports on how the handling of units is doing.
use crate::collections::VecSet;
use crate::crypto::{HashOf, Hasher};
use crate::data::{Data, Encoding};
use crate::nodes::Round;
use crate::text;
use crate::text::{append_decimal, join};
use crate::units::UnitCoord;
use itertools::Itertools;
use vstd::prelude::*;
use vstd::string::StringExecFns;

verus! {

/// Creators and rounds in ascending order.
pub open spec fn ascending(coords: Seq<(usize, Round)>) -> bool {
    forall|i: int, j: int|
        0 <= i < j < coords.len() ==> {
            let (a, b) = (#[trigger] coords[i], #[trigger] coords[j]);
            a.0 < b.0 || (a.0 == b.0 && a.1 <= b.1)
        }
}

/// `itertools::Itertools::sorted`: the same items in ascending order, which for pairs of numbers
/// is the lexicographic one.
#[verifier::external_body]
fn sorted(coords: &Vec<(usize, Round)>) -> (result: Vec<(usize, Round)>)
    ensures
        ascending(result@),
        result@.to_multiset() == coords@.to_multiset(),
{
    coords.iter().copied().sorted().collect()
}

/// Consecutive rounds put together to intervals.
pub open spec fn intervals(rounds: Seq<Round>) -> Seq<(Round, Round)>
    decreases rounds.len(),
{
    if rounds.len() == 0 {
        seq![]
    } else {
        let before = intervals(rounds.drop_last());
        let round = rounds.last();
        if before.len() > 0 && before.last().1 + 1 == round {
            before.drop_last().push((before.last().0, round))
        } else {
            before.push((round, round))
        }
    }
}

/// One round, two rounds or a range.
pub open spec fn interval_text(interval: (Round, Round)) -> Seq<char> {
    let (begin, end) = interval;
    if begin == end {
        text::decimal(begin as nat)
    } else if begin + 1 == end {
        text::decimal(begin as nat) + ", "@ + text::decimal(end as nat)
    } else {
        "["@ + text::decimal(begin as nat) + "-"@ + text::decimal(end as nat) + "]"@
    }
}

/// The rounds of each creator, as long as the creators come one behind the other.
pub open spec fn by_creator(coords: Seq<(usize, Round)>) -> Seq<(usize, Seq<Round>)>
    decreases coords.len(),
{
    if coords.len() == 0 {
        seq![]
    } else {
        let before = by_creator(coords.drop_last());
        let (creator, round) = coords.last();
        if before.len() > 0 && before.last().0 == creator {
            before.drop_last().push((creator, before.last().1.push(round)))
        } else {
            before.push((creator, seq![round]))
        }
    }
}

/// What is missing of one creator.
pub open spec fn creator_text(group: (usize, Seq<Round>)) -> Seq<char> {
    "{Creator "@ + text::decimal(group.0 as nat) + ": "@ + text::joined(
        intervals(group.1).map_values(|interval: (Round, Round)| interval_text(interval)),
        ", "@,
    ) + "}"@
}

/// What is missing of each creator.
pub open spec fn coords_text(ordered: Seq<(usize, Round)>) -> Seq<char> {
    text::joined(
        by_creator(ordered).map_values(|group: (usize, Seq<Round>)| creator_text(group)),
        ", "@,
    )
}

/// Whether a text tells of these coordinates in ascending order.
pub open spec fn describes(out: Seq<char>, coords: Seq<(usize, Round)>) -> bool {
    exists|ordered: Seq<(usize, Round)>|
        {
            &&& ascending(ordered)
            &&& ordered.to_multiset() == coords.to_multiset()
            &&& out == #[trigger] coords_text(ordered)
        }
}

fn compress(rounds: &Vec<Round>) -> (result: Vec<(Round, Round)>)
    ensures
        result@ == intervals(rounds@),
{
    let mut result: Vec<(Round, Round)> = Vec::new();
    let n: usize = rounds.len();
    for i in 0..n
        invariant
            n == rounds@.len(),
            result@ == intervals(rounds@.take(i as int)),
    {
        let ghost before = result@;
        let round: Round = rounds[i];
        proof {
            assert(rounds@.take(i + 1).drop_last() =~= rounds@.take(i as int));
        }
        match result.pop() {
            Some((begin, end)) => {
                if round > 0 && end == round - 1 {
                    result.push((begin, round));
                } else {
                    result.push((begin, end));
                    result.push((round, round));
                    proof {
                        assert(result@ =~= before.push((round, round)));
                    }
                }
            },
            None => {
                result.push((round, round));
            },
        }
    }
    proof {
        assert(rounds@.take(n as int) =~= rounds@);
    }
    result
}

fn describe_interval(interval: (Round, Round)) -> (out: String)
    ensures
        out@ == interval_text(interval),
{
    let (begin, end) = interval;
    let mut out: String = String::new();
    if begin == end {
        append_decimal(&mut out, begin as u64);
    } else if end > 0 && begin == end - 1 {
        append_decimal(&mut out, begin as u64);
        out.append(", ");
        append_decimal(&mut out, end as u64);
    } else {
        out.append("[");
        append_decimal(&mut out, begin as u64);
        out.append("-");
        append_decimal(&mut out, end as u64);
        out.append("]");
    }
    proof {
        assert(out@ =~= interval_text(interval));
    }
    out
}

fn describe_creator(creator: usize, rounds: &Vec<Round>) -> (out: String)
    ensures
        out@ == creator_text((creator, rounds@)),
{
    let parts: Vec<(Round, Round)> = compress(rounds);
    let n: usize = parts.len();
    let mut texts: Vec<String> = Vec::new();
    let ghost expected = intervals(rounds@).map_values(
        |interval: (Round, Round)| interval_text(interval),
    );
    for i in 0..n
        invariant
            n == parts@.len(),
            parts@ == intervals(rounds@),
            expected == intervals(rounds@).map_values(
                |interval: (Round, Round)| interval_text(interval),
            ),
            texts.deep_view() == expected.take(i as int),
    {
        let ghost before = texts.deep_view();
        let described: String = describe_interval(parts[i]);
        let ghost added = described@;
        texts.push(described);
        proof {
            assert(texts.deep_view() =~= before.push(added));
            assert(texts.deep_view() =~= expected.take(i + 1));
        }
    }
    proof {
        assert(expected.take(n as int) =~= expected);
    }
    let mut out: String = String::new();
    out.append("{Creator ");
    append_decimal(&mut out, creator as u64);
    out.append(": ");
    out.append(join(&texts, ", ").as_str());
    out.append("}");
    proof {
        assert(out@ =~= creator_text((creator, rounds@)));
    }
    out
}

/// The model of rounds grouped by creator.
pub open spec fn groups_view(groups: Seq<(usize, Vec<Round>)>) -> Seq<(usize, Seq<Round>)> {
    Seq::new(groups.len(), |i: int| (groups[i].0, groups[i].1@))
}

fn group(ordered: &Vec<(usize, Round)>) -> (result: Vec<(usize, Vec<Round>)>)
    ensures
        groups_view(result@) == by_creator(ordered@),
{
    let mut result: Vec<(usize, Vec<Round>)> = Vec::new();
    let n: usize = ordered.len();
    proof {
        assert(groups_view(result@) =~= by_creator(ordered@.take(0)));
    }
    for i in 0..n
        invariant
            n == ordered@.len(),
            groups_view(result@) == by_creator(ordered@.take(i as int)),
    {
        let ghost before = groups_view(result@);
        let (creator, round) = ordered[i];
        proof {
            assert(ordered@.take(i + 1).drop_last() =~= ordered@.take(i as int));
        }
        match result.pop() {
            Some((last, mut rounds)) => {
                proof {
                    assert(groups_view(result@) =~= before.drop_last());
                    assert(before.last() == (last, rounds@));
                }
                if last == creator {
                    rounds.push(round);
                    result.push((last, rounds));
                    proof {
                        assert(groups_view(result@) =~= before.drop_last().push(
                            (creator, before.last().1.push(round)),
                        ));
                    }
                } else {
                    result.push((last, rounds));
                    let mut fresh: Vec<Round> = Vec::new();
                    fresh.push(round);
                    result.push((creator, fresh));
                    proof {
                        assert(groups_view(result@) =~= before.push((creator, seq![round])));
                    }
                }
            },
            None => {
                let mut fresh: Vec<Round> = Vec::new();
                fresh.push(round);
                result.push((creator, fresh));
                proof {
                    assert(groups_view(result@) =~= before.push((creator, seq![round])));
                }
            },
        }
    }
    proof {
        assert(ordered@.take(n as int) =~= ordered@);
    }
    result
}

fn describe_coords(coords: &Vec<(usize, Round)>) -> (out: String)
    ensures
        describes(out@, coords@),
{
    let ordered: Vec<(usize, Round)> = sorted(coords);
    let groups: Vec<(usize, Vec<Round>)> = group(&ordered);
    let n: usize = groups.len();
    let mut texts: Vec<String> = Vec::new();
    let ghost expected = by_creator(ordered@).map_values(
        |group: (usize, Seq<Round>)| creator_text(group),
    );
    for i in 0..n
        invariant
            n == groups@.len(),
            groups_view(groups@) == by_creator(ordered@),
            expected == by_creator(ordered@).map_values(
                |group: (usize, Seq<Round>)| creator_text(group),
            ),
            texts.deep_view() == expected.take(i as int),
    {
        let ghost before = texts.deep_view();
        let entry: &(usize, Vec<Round>) = &groups[i];
        let described: String = describe_creator(entry.0, &entry.1);
        let ghost added = described@;
        texts.push(described);
        proof {
            assert(groups_view(groups@)[i as int] == (entry.0, entry.1@));
            assert(texts.deep_view() =~= before.push(added));
            assert(texts.deep_view() =~= expected.take(i + 1));
        }
    }
    proof {
        assert(expected.take(n as int) =~= expected);
    }
    let out: String = join(&texts, ", ");
    proof {
        assert(out@ == coords_text(ordered@));
    }
    out
}

/// How far behind we are and how much is missing, in one phrase.
pub open spec fn short_text(rounds_behind: nat, missing_coords: nat) -> Seq<char> {
    if rounds_behind <= 2 && missing_coords == 0 {
        "healthy"@
    } else if rounds_behind <= 2 {
        "syncing - missing "@ + text::decimal(missing_coords) + " unit(s)"@
    } else if missing_coords == 0 {
        "behind by "@ + text::decimal(rounds_behind) + " rounds"@
    } else {
        "syncing - missing "@ + text::decimal(missing_coords) + " unit(s) and behind by "@
            + text::decimal(rounds_behind) + " rounds"@
    }
}

/// By how much the rounds heard of are ahead of the rounds that we have units of.
pub open spec fn behind(heard_of: Round, reached: Round) -> nat {
    if heard_of > reached {
        (heard_of - reached) as nat
    } else {
        0
    }
}

/// Hashes in braces.
pub open spec fn hashes_text<H: Hasher>(hashes: Seq<HashOf<H>>) -> Seq<char> {
    "{"@ + text::joined(
        hashes.map_values(|hash: HashOf<H>| H::Hash::shown(hash)),
        ", "@,
    ) + "}"@
}

fn describe_hashes<H: Hasher>(hashes: &VecSet<H::Hash>) -> (out: String)
    ensures
        out@ == hashes_text::<H>(hashes.listing()),
{
    let n: usize = hashes.len();
    let mut texts: Vec<String> = Vec::new();
    let ghost expected = hashes.listing().map_values(
        |hash: HashOf<H>| H::Hash::shown(hash),
    );
    for i in 0..n
        invariant
            n == hashes.listing().len(),
            expected == hashes.listing().map_values(
                |hash: HashOf<H>| H::Hash::shown(hash),
            ),
            texts.deep_view() == expected.take(i as int),
    {
        let ghost before = texts.deep_view();
        let described: String = hashes.item(i).debug();
        let ghost added = described@;
        texts.push(described);
        proof {
            assert(texts.deep_view() =~= before.push(added));
            assert(texts.deep_view() =~= expected.take(i + 1));
        }
    }
    proof {
        assert(expected.take(n as int) =~= expected);
    }
    let mut out: String = String::new();
    out.append("{");
    out.append(join(&texts, ", ").as_str());
    out.append("}");
    proof {
        assert(out@ =~= hashes_text::<H>(hashes.listing()));
    }
    out
}

/// What is known of how the handling of units is doing.
pub struct RunwayStatus<'a, H: Hasher> {
    pub missing_coords: &'a VecSet<UnitCoord>,
    pub missing_parents: &'a VecSet<H::Hash>,
    /// The latest round of a unit that was heard of.
    pub dag_top_round: Round,
    /// The latest round of a unit that we have.
    pub store_top_round: Round,
}

/// The creators and rounds of some coordinates.
pub open spec fn pairs(coords: Seq<UnitCoord>) -> Seq<(usize, Round)> {
    coords.map_values(|coord: UnitCoord| (coord.creator.0, coord.round))
}

impl<'a, H: Hasher> RunwayStatus<'a, H> {
    /// How far behind we are and how much is missing, in one phrase.
    pub fn short_report(&self) -> (out: String)
        ensures
            out@ == short_text(
                behind(self.dag_top_round, self.store_top_round),
                self.missing_coords.deep_view().len(),
            ),
    {
        let rounds_behind: Round = if self.dag_top_round > self.store_top_round {
            self.dag_top_round - self.store_top_round
        } else {
            0
        };
        let missing_coords: usize = self.missing_coords.len();
        let mut out: String = String::new();
        if rounds_behind <= 2 && missing_coords == 0 {
            out.append("healthy");
        } else if rounds_behind <= 2 {
            out.append("syncing - missing ");
            append_decimal(&mut out, missing_coords as u64);
            out.append(" unit(s)");
        } else if missing_coords == 0 {
            out.append("behind by ");
            append_decimal(&mut out, rounds_behind as u64);
            out.append(" rounds");
        } else {
            out.append("syncing - missing ");
            append_decimal(&mut out, missing_coords as u64);
            out.append(" unit(s) and behind by ");
            append_decimal(&mut out, rounds_behind as u64);
            out.append(" rounds");
        }
        proof {
            assert(out@ =~= short_text(
                behind(self.dag_top_round, self.store_top_round),
                self.missing_coords.deep_view().len(),
            ));
        }
        out
    }

    /// The missing coordinates, those of each creator together and consecutive rounds as ranges.
    pub fn format_missing_coords(coords: &Vec<(usize, Round)>) -> (out: String)
        ensures
            describes(out@, coords@),
    {
        describe_coords(coords)
    }

    fn missing_pairs(&self) -> (result: Vec<(usize, Round)>)
        ensures
            result@ == pairs(self.missing_coords.listing()),
    {
        let n: usize = self.missing_coords.len();
        let mut result: Vec<(usize, Round)> = Vec::new();
        let ghost expected = pairs(self.missing_coords.listing());
        for i in 0..n
            invariant
                n == self.missing_coords.listing().len(),
                expected == pairs(self.missing_coords.listing()),
                result@ == expected.take(i as int),
        {
            let coord: &UnitCoord = self.missing_coords.item(i);
            result.push((coord.creator.0, coord.round));
            proof {
                assert(result@ =~= expected.take(i + 1));
            }
        }
        proof {
            assert(expected.take(n as int) =~= expected);
        }
        result
    }

    /// The whole report.
    pub fn text(&self) -> (out: String)
        ensures
            exists|coords: Seq<char>|
                {
                    &&& #[trigger] describes(coords, pairs(self.missing_coords.listing()))
                    &&& out@ == "Runway status report: "@ + short_text(
                        behind(self.dag_top_round, self.store_top_round),
                        self.missing_coords.deep_view().len(),
                    ) + (if self.missing_coords.deep_view().len() > 0 {
                        "; missing coords - "@ + coords
                    } else {
                        seq![]
                    }) + (if self.missing_parents.deep_view().len() > 0 {
                        "; missing parents - "@ + hashes_text::<H>(self.missing_parents.listing())
                    } else {
                        seq![]
                    }) + "."@
                },
    {
        let mut out: String = String::new();
        out.append("Runway status report: ");
        out.append(self.short_report().as_str());
        let described: String = Self::format_missing_coords(&self.missing_pairs());
        if self.missing_coords.len() > 0 {
            out.append("; missing coords - ");
            out.append(described.as_str());
        }
        if self.missing_parents.len() > 0 {
            out.append("; missing parents - ");
            out.append(describe_hashes::<H>(self.missing_parents).as_str());
        }
        out.append(".");
        proof {
            let coords = described@;
            assert(describes(coords, pairs(self.missing_coords.listing())));
            assert(out@ =~= "Runway status report: "@ + short_text(
                behind(self.dag_top_round, self.store_top_round),
                self.missing_coords.deep_view().len(),
            ) + (if self.missing_coords.deep_view().len() > 0 {
                "; missing coords - "@ + coords
            } else {
                seq![]
            }) + (if self.missing_parents.deep_view().len() > 0 {
                "; missing parents - "@ + hashes_text::<H>(self.missing_parents.listing())
            } else {
                seq![]
            }) + "."@);
        }
        out
    }
}

/// Whether a round is in one of the intervals.
pub open spec fn covered(intervals: Seq<(Round, Round)>, round: Round) -> bool {
    exists|i: int|
        0 <= i < intervals.len() && (#[trigger] intervals[i]).0 <= round <= intervals[i].1
}

/// Putting rounds together to intervals neither loses rounds nor makes any up.
pub proof fn law_intervals_cover(rounds: Seq<Round>)
    ensures
        forall|i: int|
            0 <= i < intervals(rounds).len() ==> (#[trigger] intervals(rounds)[i]).0
                <= intervals(rounds)[i].1,
        forall|round: Round| #[trigger] covered(intervals(rounds), round) <==> rounds.contains(round),
    decreases rounds.len(),
{
    if rounds.len() > 0 {
        let rest = rounds.drop_last();
        law_intervals_cover(rest);
        let before = intervals(rest);
        let after = intervals(rounds);
        let last = rounds.last();
        let merged = before.len() > 0 && before.last().1 + 1 == last;
        assert forall|i: int| 0 <= i < after.len() implies (#[trigger] after[i]).0
            <= after[i].1 by {
            if i < before.len() {
                assert(before[i].0 <= before[i].1);
            }
        }
        assert forall|round: Round| #[trigger]
            covered(after, round) <==> rounds.contains(round) by {
            assert(rounds.contains(round) <==> (rest.contains(round) || round == last)) by {
                if rest.contains(round) {
                    let k = choose|k: int| 0 <= k < rest.len() && rest[k] == round;
                    assert(rounds[k] == round);
                }
                if rounds.contains(round) && round != last {
                    let k = choose|k: int| 0 <= k < rounds.len() && rounds[k] == round;
                    assert(rest[k] == round);
                }
                assert(rounds[rounds.len() - 1] == last);
            }
            assert(covered(before, round) <==> rest.contains(round));
            if covered(before, round) {
                let k = choose|k: int|
                    0 <= k < before.len() && (#[trigger] before[k]).0 <= round <= before[k].1;
                assert(after[k].0 <= round <= after[k].1);
            }
            if round == last {
                assert(after[after.len() - 1].0 <= round <= after[after.len() - 1].1) by {
                    if merged {
                        assert(before[before.len() - 1].0 <= before[before.len() - 1].1);
                    }
                }
            }
            if covered(after, round) && round != last {
                let k = choose|k: int|
                    0 <= k < after.len() && (#[trigger] after[k]).0 <= round <= after[k].1;
                assert(k < before.len());
                assert(before[k].0 <= round <= before[k].1);
            }
        }
    }
}

/// Rounds that follow each other are put together as far as possible: between two intervals of rising
/// rounds at least one round is missing.
pub proof fn law_intervals_apart(rounds: Seq<Round>)
    requires
        forall|i: int, j: int| 0 <= i < j < rounds.len() ==> rounds[i] < rounds[j],
    ensures
        forall|i: int|
            0 < i < intervals(rounds).len() ==> intervals(rounds)[i - 1].1 + 1 < (
            #[trigger] intervals(rounds)[i]).0,
        rounds.len() > 0 ==> intervals(rounds).len() > 0 && intervals(rounds).last().1
            == rounds.last(),
    decreases rounds.len(),
{
    if rounds.len() > 0 {
        let rest = rounds.drop_last();
        law_intervals_apart(rest);
        let before = intervals(rest);
        let after = intervals(rounds);
        let last = rounds.last();
        assert forall|i: int| 0 < i < after.len() implies after[i - 1].1 + 1 < (
        #[trigger] after[i]).0 by {
            if rest.len() > 0 {
                assert(rest.last() < last);
                if i < before.len() {
                    assert(before[i - 1].1 + 1 < before[i].0);
                    assert(after[i].0 == before[i].0);
                    assert(after[i - 1] == before[i - 1]);
                } else {
                    assert(after[i - 1] == before[i - 1]);
                }
            }
        }
    }
}

/// All the rounds of the groups, with their creators, one group after another.
pub open spec fn ungrouped(groups: Seq<(usize, Seq<Round>)>) -> Seq<(usize, Round)>
    decreases groups.len(),
{
    if groups.len() == 0 {
        seq![]
    } else {
        ungrouped(groups.drop_last()) + groups.last().1.map_values(
            |round: Round| (groups.last().0, round),
        )
    }
}

/// Grouping coordinates by their creators loses nothing and changes no order, and groups that stand
/// side by side are of different creators.
pub proof fn law_grouped_by_creator(coords: Seq<(usize, Round)>)
    ensures
        ungrouped(by_creator(coords)) == coords,
        forall|i: int|
            0 < i < by_creator(coords).len() ==> by_creator(coords)[i - 1].0 != (
            #[trigger] by_creator(coords)[i]).0,
        coords.len() > 0 ==> by_creator(coords).len() > 0 && by_creator(coords).last().0
            == coords.last().0,
    decreases coords.len(),
{
    if coords.len() > 0 {
        let rest = coords.drop_last();
        law_grouped_by_creator(rest);
        let before = by_creator(rest);
        let after = by_creator(coords);
        let (creator, round) = coords.last();
        let tagged = |r: Round| (creator, r);
        if before.len() > 0 && before.last().0 == creator {
            assert(after.drop_last() =~= before.drop_last());
            assert(after.last().1.map_values(tagged) =~= before.last().1.map_values(tagged).push(
                (creator, round),
            ));
            assert(ungrouped(after) =~= ungrouped(before).push((creator, round)));
            assert forall|i: int| 0 < i < after.len() implies after[i - 1].0 != (
            #[trigger] after[i]).0 by {
                assert(before[i - 1].0 != before[i].0);
            }
        } else {
            assert(after.drop_last() =~= before);
            assert(after.last().1.map_values(tagged) =~= seq![(creator, round)]);
            assert(ungrouped(after) =~= ungrouped(before).push((creator, round)));
            assert forall|i: int| 0 < i < after.len() implies after[i - 1].0 != (
            #[trigger] after[i]).0 by {
                if i < before.len() {
                    assert(before[i - 1].0 != before[i].0);
                }
            }
        }
        assert(coords =~= rest.push((creator, round)));
    }
}

/// How far behind we are is what is missing to the latest round that was heard of, and nothing if we
/// have reached it.
pub proof fn law_rounds_behind(heard_of: Round, reached: Round)
    ensures
        heard_of >= reached ==> behind(heard_of, reached) + reached == heard_of,
        heard_of <= reached ==> behind(heard_of, reached) == 0,
{
}

} // verus!
