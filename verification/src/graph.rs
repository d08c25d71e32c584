//! The order in which suites run. A suite with no requirements resolves in
//! the first round. Any other suite resolves in the round after the last of
//! the suites that it requires. A suite that requires a name which no
//! resolved suite bears never resolves: the name is unknown, or it lies on a
//! cycle, or it depends on such a suite.

use vstd::prelude::*;

use crate::config::{suites_view, ActionSuite, Suite};
use crate::search::lemma_filter_step;
use crate::text::texts;

verus! {

/// Whether suite `i` resolves in one of the first `rounds` rounds.
pub open spec fn resolves_within(suites: Seq<Suite>, i: int, rounds: nat) -> bool
    decreases rounds,
{
    &&& rounds > 0
    &&& 0 <= i < suites.len()
    &&& forall|r: int|
        0 <= r < suites[i].requirements.len() ==> exists|j: int|
            0 <= j < suites.len() && (#[trigger] suites[j]).name
                == #[trigger] suites[i].requirements[r] && resolves_within(
                suites,
                j,
                (rounds - 1) as nat,
            )
}

/// Whether suite `i` resolves at all.
pub open spec fn resolves(suites: Seq<Suite>, i: int) -> bool {
    exists|rounds: nat| resolves_within(suites, i, rounds)
}

/// Whether suite `i` resolves in round `round` and not before.
pub open spec fn resolves_in(suites: Seq<Suite>, i: int, round: nat) -> bool {
    resolves_within(suites, i, round) && !resolves_within(suites, i, (round - 1) as nat)
}

/// The round in which suite `i` resolves.
pub open spec fn round_of(suites: Seq<Suite>, i: int) -> nat {
    choose|round: nat| resolves_in(suites, i, round)
}

/// Whether suite `a` runs before suite `b`: it resolves in an earlier round,
/// or in the same round and is declared first.
pub open spec fn runs_before(suites: Seq<Suite>, a: int, b: int) -> bool {
    round_of(suites, a) < round_of(suites, b) || (round_of(suites, a) == round_of(suites, b) && a
        < b)
}

/// Whether `order` is the order in which the suites run: the suites that
/// resolve, each once, by round and within a round as they are declared.
pub open spec fn is_run_order(suites: Seq<Suite>, order: Seq<int>) -> bool {
    &&& forall|p: int| 0 <= p < order.len() ==> resolves(suites, #[trigger] order[p])
    &&& forall|i: int| resolves(suites, i) ==> #[trigger] order.contains(i)
    &&& forall|p: int, q: int|
        0 <= p < q < order.len() ==> runs_before(suites, #[trigger] order[p], #[trigger] order[q])
}

/// Whether a resolved suite bears `name`.
pub open spec fn provided(suites: Seq<Suite>, name: Seq<char>) -> bool {
    exists|j: int| 0 <= j < suites.len() && (#[trigger] suites[j]).name == name && resolves(suites, j)
}

/// The names that no resolved suite bears.
pub open spec fn lacking(suites: Seq<Suite>) -> spec_fn(Seq<char>) -> bool {
    |name: Seq<char>| !provided(suites, name)
}

/// The requirements that keep the first `upto` suites from resolving, as
/// often and in the order as they are declared.
pub open spec fn pending(suites: Seq<Suite>, upto: int) -> Seq<Seq<char>>
    decreases upto,
{
    if upto <= 0 {
        Seq::empty()
    } else if resolves(suites, upto - 1) {
        pending(suites, upto - 1)
    } else {
        pending(suites, upto - 1) + suites[upto - 1].requirements.filter(lacking(suites))
    }
}

/// `names` without repetitions: of each name its first occurrence.
pub open spec fn distinct(names: Seq<Seq<char>>) -> Seq<Seq<char>>
    decreases names.len(),
{
    if names.len() == 0 {
        names
    } else if distinct(names.drop_last()).contains(names.last()) {
        distinct(names.drop_last())
    } else {
        distinct(names.drop_last()).push(names.last())
    }
}

/// The requirements that cannot be met: each requirement of a suite that
/// does not resolve which no resolved suite bears, once, in the order in
/// which they are declared.
pub open spec fn unresolved(suites: Seq<Suite>) -> Seq<Seq<char>> {
    distinct(pending(suites, suites.len() as int))
}

/// A suite that resolves within some rounds resolves within more rounds.
pub proof fn lemma_resolves_within_more(suites: Seq<Suite>, i: int, rounds: nat, more: nat)
    requires
        resolves_within(suites, i, rounds),
        rounds <= more,
    ensures
        resolves_within(suites, i, more),
    decreases rounds,
{
    assert forall|r: int| 0 <= r < suites[i].requirements.len() implies exists|j: int|
        0 <= j < suites.len() && (#[trigger] suites[j]).name
            == #[trigger] suites[i].requirements[r] && resolves_within(
            suites,
            j,
            (more - 1) as nat,
        ) by {
        let j = choose|j: int|
            0 <= j < suites.len() && (#[trigger] suites[j]).name == suites[i].requirements[r]
                && resolves_within(suites, j, (rounds - 1) as nat);
        lemma_resolves_within_more(suites, j, (rounds - 1) as nat, (more - 1) as nat);
    }
}

/// The round in which a suite resolves is the only one of which `resolves_in`
/// holds.
pub proof fn lemma_round_of(suites: Seq<Suite>, i: int, round: nat)
    requires
        resolves_in(suites, i, round),
    ensures
        round_of(suites, i) == round,
        round > 0,
        resolves(suites, i),
{
    let other = round_of(suites, i);
    if other < round {
        lemma_resolves_within_more(suites, i, other, (round - 1) as nat);
    }
    if round < other {
        lemma_resolves_within_more(suites, i, round, (other - 1) as nat);
    }
}

/// A suite that resolves does so in some first round.
pub proof fn lemma_resolves_first(suites: Seq<Suite>, i: int, rounds: nat)
    requires
        resolves_within(suites, i, rounds),
    ensures
        resolves_in(suites, i, round_of(suites, i)),
        0 < round_of(suites, i) <= rounds,
    decreases rounds,
{
    if resolves_within(suites, i, (rounds - 1) as nat) {
        lemma_resolves_first(suites, i, (rounds - 1) as nat);
    } else {
        lemma_round_of(suites, i, rounds);
    }
}

/// A suite without requirements resolves, in the first round.
pub proof fn lemma_free_suite_resolves(suites: Seq<Suite>, i: int)
    requires
        0 <= i < suites.len(),
        suites[i].requirements.len() == 0,
    ensures
        resolves(suites, i),
        round_of(suites, i) == 1,
{
    lemma_round_of(suites, i, 1);
}

/// In the order in which the suites run, every suite stands behind a suite
/// of each name that it requires.
pub proof fn lemma_requirements_run_first(suites: Seq<Suite>, order: Seq<int>, p: int, r: int)
    requires
        is_run_order(suites, order),
        0 <= p < order.len(),
        0 <= r < suites[order[p]].requirements.len(),
    ensures
        exists|q: int|
            0 <= q < p && suites[#[trigger] order[q]].name == suites[order[p]].requirements[r],
{
    let a = order[p];
    let some = choose|rounds: nat| resolves_within(suites, a, rounds);
    lemma_resolves_first(suites, a, some);
    let round = round_of(suites, a);
    let j = choose|j: int|
        0 <= j < suites.len() && (#[trigger] suites[j]).name == suites[a].requirements[r]
            && resolves_within(suites, j, (round - 1) as nat);
    lemma_resolves_first(suites, j, (round - 1) as nat);
    assert(order.contains(j));
}

/// Whether suite `j` bears `name` and no other suite does.
pub open spec fn only_bearer(suites: Seq<Suite>, name: Seq<char>, j: int) -> bool {
    &&& 0 <= j < suites.len()
    &&& suites[j].name == name
    &&& forall|other: int|
        0 <= other < suites.len() && (#[trigger] suites[other]).name == name ==> other == j
}

/// Whether the suites of `cycle` require one another in a ring: each of them
/// requires a name that the next one bears and no other suite does, and the
/// last one such a name of the first.
pub open spec fn is_cycle(suites: Seq<Suite>, cycle: Seq<int>) -> bool {
    &&& cycle.len() > 0
    &&& forall|a: int|
        0 <= a < cycle.len() ==> 0 <= #[trigger] cycle[a] < suites.len() && exists|r: int|
            0 <= r < suites[cycle[a]].requirements.len() && only_bearer(
                suites,
                #[trigger] suites[cycle[a]].requirements[r],
                cycle[(a + 1) % (cycle.len() as int)],
            )
}

/// No suite of a cycle resolves within any number of rounds.
proof fn lemma_cycle_within(suites: Seq<Suite>, cycle: Seq<int>, a: int, rounds: nat)
    requires
        is_cycle(suites, cycle),
        0 <= a < cycle.len(),
    ensures
        !resolves_within(suites, cycle[a], rounds),
    decreases rounds,
{
    if resolves_within(suites, cycle[a], rounds) {
        let next = (a + 1) % (cycle.len() as int);
        let r = choose|r: int|
            0 <= r < suites[cycle[a]].requirements.len() && only_bearer(
                suites,
                #[trigger] suites[cycle[a]].requirements[r],
                cycle[next],
            );
        let j = choose|j: int|
            0 <= j < suites.len() && (#[trigger] suites[j]).name == suites[cycle[a]].requirements[r]
                && resolves_within(suites, j, (rounds - 1) as nat);
        assert(j == cycle[next]);
        lemma_cycle_within(suites, cycle, next, (rounds - 1) as nat);
    }
}

/// The suites of a cycle do not resolve, and each of them has a requirement
/// that is reported as unresolved.
pub proof fn lemma_cycle(suites: Seq<Suite>, cycle: Seq<int>, a: int)
    requires
        is_cycle(suites, cycle),
        0 <= a < cycle.len(),
    ensures
        !resolves(suites, cycle[a]),
        exists|r: int|
            0 <= r < suites[cycle[a]].requirements.len() && unresolved(suites).contains(
                #[trigger] suites[cycle[a]].requirements[r],
            ),
{
    assert forall|rounds: nat| !resolves_within(suites, cycle[a], rounds) by {
        lemma_cycle_within(suites, cycle, a, rounds);
    }
    lemma_unresolved_suite(suites, cycle[a]);
}

/// `distinct` keeps every name and repeats none.
pub proof fn lemma_distinct(names: Seq<Seq<char>>)
    ensures
        distinct(names).no_duplicates(),
        forall|name: Seq<char>| #[trigger] distinct(names).contains(name) <==> names.contains(name),
    decreases names.len(),
{
    if names.len() > 0 {
        let front = names.drop_last();
        let last = names.last();
        lemma_distinct(front);
        let kept = distinct(front);
        assert forall|name: Seq<char>| #[trigger] distinct(names).contains(name) <==> names.contains(
            name,
        ) by {
            if names.contains(name) {
                let i = choose|i: int| 0 <= i < names.len() && names[i] == name;
                if i < front.len() {
                    assert(front[i] == name);
                    assert(kept.contains(name));
                    let k = choose|k: int| 0 <= k < kept.len() && kept[k] == name;
                    if !kept.contains(last) {
                        assert(kept.push(last)[k] == name);
                    }
                } else {
                    if !kept.contains(last) {
                        assert(kept.push(last)[kept.len() as int] == name);
                    }
                }
            }
            if distinct(names).contains(name) {
                let k = choose|k: int| 0 <= k < distinct(names).len() && distinct(names)[k] == name;
                if kept.contains(last) || k < kept.len() {
                    assert(kept.contains(name));
                }
            }
        }
    }
}

/// The requirements of a suite that are met when the suite resolves are met
/// within a common number of rounds.
proof fn lemma_common_round(suites: Seq<Suite>, i: int, upto: int) -> (rounds: nat)
    requires
        0 <= i < suites.len(),
        0 <= upto <= suites[i].requirements.len(),
        forall|r: int| 0 <= r < upto ==> provided(suites, #[trigger] suites[i].requirements[r]),
    ensures
        forall|r: int|
            0 <= r < upto ==> exists|j: int|
                0 <= j < suites.len() && (#[trigger] suites[j]).name
                    == #[trigger] suites[i].requirements[r] && resolves_within(suites, j, rounds),
    decreases upto,
{
    if upto == 0 {
        0
    } else {
        let before = lemma_common_round(suites, i, upto - 1);
        let name = suites[i].requirements[upto - 1];
        let j = choose|j: int|
            0 <= j < suites.len() && (#[trigger] suites[j]).name == name && resolves(suites, j);
        let own = choose|rounds: nat| resolves_within(suites, j, rounds);
        let rounds = if before < own {
            own
        } else {
            before
        };
        assert forall|r: int| 0 <= r < upto implies exists|j: int|
            0 <= j < suites.len() && (#[trigger] suites[j]).name
                == #[trigger] suites[i].requirements[r] && resolves_within(suites, j, rounds) by {
            if r < upto - 1 {
                let j2 = choose|j2: int|
                    0 <= j2 < suites.len() && (#[trigger] suites[j2]).name
                        == suites[i].requirements[r] && resolves_within(suites, j2, before);
                lemma_resolves_within_more(suites, j2, before, rounds);
            } else {
                lemma_resolves_within_more(suites, j, own, rounds);
            }
        }
        rounds
    }
}

/// A suite that does not resolve has a requirement that no resolved suite
/// bears.
pub proof fn lemma_unresolved_lacks(suites: Seq<Suite>, i: int)
    requires
        0 <= i < suites.len(),
        !resolves(suites, i),
    ensures
        exists|r: int|
            0 <= r < suites[i].requirements.len() && !provided(
                suites,
                #[trigger] suites[i].requirements[r],
            ),
{
    if forall|r: int|
        0 <= r < suites[i].requirements.len() ==> provided(suites, #[trigger] suites[i].requirements[r]) {
        let rounds = lemma_common_round(suites, i, suites[i].requirements.len() as int);
        assert(resolves_within(suites, i, rounds + 1));
    }
}

/// What `pending` holds: the requirements of the suites that do not resolve
/// which no resolved suite bears.
pub proof fn lemma_pending(suites: Seq<Suite>, upto: int)
    requires
        0 <= upto <= suites.len(),
    ensures
        forall|name: Seq<char>| #[trigger]
            pending(suites, upto).contains(name) <==> exists|i: int, r: int|
                0 <= i < upto && !resolves(suites, i) && 0 <= r < suites[i].requirements.len()
                    && #[trigger] suites[i].requirements[r] == name && !provided(suites, name),
    decreases upto,
{
    if upto > 0 {
        lemma_pending(suites, upto - 1);
        let before = pending(suites, upto - 1);
        let last = upto - 1;
        let wanted = suites[last].requirements;
        let unmet = wanted.filter(lacking(suites));
        assert forall|name: Seq<char>| #[trigger]
            pending(suites, upto).contains(name) <==> exists|i: int, r: int|
                0 <= i < upto && !resolves(suites, i) && 0 <= r < suites[i].requirements.len()
                    && #[trigger] suites[i].requirements[r] == name && !provided(suites, name) by {
            let now = pending(suites, upto);
            if now.contains(name) {
                let k = choose|k: int| 0 <= k < now.len() && now[k] == name;
                if resolves(suites, last) || k < before.len() {
                    assert(before.contains(name));
                } else {
                    wanted.lemma_filter_contains_rev(lacking(suites), name);
                    let r = choose|r: int| 0 <= r < wanted.len() && wanted[r] == name;
                }
            }
            if exists|i: int, r: int|
                0 <= i < upto && !resolves(suites, i) && 0 <= r < suites[i].requirements.len()
                    && #[trigger] suites[i].requirements[r] == name && !provided(suites, name) {
                let (i, r) = choose|i: int, r: int|
                    0 <= i < upto && !resolves(suites, i) && 0 <= r < suites[i].requirements.len()
                        && #[trigger] suites[i].requirements[r] == name && !provided(suites, name);
                if i < last {
                    assert(before.contains(name));
                    let k = choose|k: int| 0 <= k < before.len() && before[k] == name;
                    assert(now[k] == name);
                } else {
                    wanted.lemma_filter_contains(lacking(suites), r);
                    let k = choose|k: int| 0 <= k < unmet.len() && unmet[k] == name;
                    assert(now[before.len() + k] == name);
                }
            }
        }
    }
}

/// What is reported as unresolved: each requirement of a suite that does
/// not resolve which no resolved suite bears, and nothing else, and none of
/// them twice.
pub proof fn lemma_unresolved(suites: Seq<Suite>)
    ensures
        unresolved(suites).no_duplicates(),
        forall|name: Seq<char>| #[trigger]
            unresolved(suites).contains(name) <==> exists|i: int, r: int|
                0 <= i < suites.len() && !resolves(suites, i) && 0 <= r
                    < suites[i].requirements.len() && #[trigger] suites[i].requirements[r] == name
                    && !provided(suites, name),
{
    lemma_distinct(pending(suites, suites.len() as int));
    lemma_pending(suites, suites.len() as int);
}

/// A requirement that is the name of no suite keeps the suite that has it
/// from resolving and is reported as unresolved.
pub proof fn lemma_unknown_requirement(suites: Seq<Suite>, i: int, r: int)
    requires
        0 <= i < suites.len(),
        0 <= r < suites[i].requirements.len(),
        forall|j: int| 0 <= j < suites.len() ==> (#[trigger] suites[j]).name != suites[i].requirements[r],
    ensures
        !resolves(suites, i),
        unresolved(suites).contains(suites[i].requirements[r]),
{
    lemma_unresolved(suites);
}

/// A suite that does not resolve is not passed over: one of its
/// requirements is reported as unresolved.
pub proof fn lemma_unresolved_suite(suites: Seq<Suite>, i: int)
    requires
        0 <= i < suites.len(),
        !resolves(suites, i),
    ensures
        exists|r: int|
            0 <= r < suites[i].requirements.len() && unresolved(suites).contains(
                #[trigger] suites[i].requirements[r],
            ),
{
    lemma_unresolved(suites);
    lemma_unresolved_lacks(suites, i);
}

/// What is known of the suites while round `done + 1` goes through them and
/// has come to suite `upto`. `rounds` holds for each suite the round in
/// which it resolved, and 0 where it has not.
pub open spec fn in_round(suites: Seq<Suite>, rounds: Seq<usize>, done: nat, upto: int) -> bool {
    &&& rounds.len() == suites.len()
    &&& forall|j: int|
        0 <= j < suites.len() ==> {
            &&& (#[trigger] rounds[j]) <= done + 1
            &&& (rounds[j] > 0 ==> resolves_in(suites, j, rounds[j] as nat))
            &&& (rounds[j] == done + 1 ==> j < upto)
            &&& (rounds[j] == 0 ==> !resolves_within(
                suites,
                j,
                if j < upto {
                    done + 1
                } else {
                    done
                },
            ))
        }
}

/// What is known of the suites once no round can resolve another one.
pub open spec fn at_rest(suites: Seq<Suite>, rounds: Seq<usize>, last: nat) -> bool {
    &&& rounds.len() == suites.len()
    &&& forall|j: int|
        0 <= j < suites.len() ==> {
            &&& (#[trigger] rounds[j]) <= last
            &&& (rounds[j] > 0 ==> resolves_in(suites, j, rounds[j] as nat))
            &&& (rounds[j] == 0 ==> !resolves_within(suites, j, last + 1))
        }
}

/// The suites run in `order`, going by the rounds in `rounds`.
pub open spec fn ordered(suites: Seq<Suite>, rounds: Seq<usize>, order: Seq<usize>) -> bool {
    &&& forall|p: int|
        0 <= p < order.len() ==> 0 <= #[trigger] order[p] < suites.len() && rounds[order[p] as int]
            > 0
    &&& forall|j: int| 0 <= j < suites.len() && rounds[j] > 0 ==> #[trigger] order.contains(j as usize)
    &&& forall|p: int, q: int|
        0 <= p < q < order.len() ==> rounds[#[trigger] order[p] as int] < rounds[#[trigger] order[q] as int]
            || (rounds[order[p] as int] == rounds[order[q] as int] && order[p] < order[q])
}

/// How many suites have resolved.
pub open spec fn count_resolved(rounds: Seq<usize>) -> nat
    decreases rounds.len(),
{
    if rounds.len() == 0 {
        0
    } else if rounds.last() > 0 {
        count_resolved(rounds.drop_last()) + 1
    } else {
        count_resolved(rounds.drop_last())
    }
}

/// No more suites have resolved than there are, and all have where as many
/// have.
proof fn lemma_count_bound(rounds: Seq<usize>)
    ensures
        count_resolved(rounds) <= rounds.len(),
        count_resolved(rounds) == rounds.len() ==> forall|j: int|
            0 <= j < rounds.len() ==> #[trigger] rounds[j] > 0,
    decreases rounds.len(),
{
    if rounds.len() > 0 {
        lemma_count_bound(rounds.drop_last());
        if count_resolved(rounds) == rounds.len() {
            assert forall|j: int| 0 <= j < rounds.len() implies #[trigger] rounds[j] > 0 by {
                if j < rounds.len() - 1 {
                    assert(rounds.drop_last()[j] == rounds[j]);
                }
            }
        }
    }
}

/// One more suite has resolved once a suite that had not is given a round.
proof fn lemma_count_update(rounds: Seq<usize>, i: int, round: usize)
    requires
        0 <= i < rounds.len(),
        rounds[i] == 0,
        round > 0,
    ensures
        count_resolved(rounds.update(i, round)) == count_resolved(rounds) + 1,
    decreases rounds.len(),
{
    let after = rounds.update(i, round);
    if i == rounds.len() - 1 {
        assert(after.drop_last() =~= rounds.drop_last());
    } else {
        assert(after.drop_last() =~= rounds.drop_last().update(i, round));
        lemma_count_update(rounds.drop_last(), i, round);
    }
}

/// While a round goes on, the suites that resolved before it are those that
/// resolve within the rounds before it.
proof fn lemma_in_round(suites: Seq<Suite>, rounds: Seq<usize>, done: nat, upto: int)
    requires
        in_round(suites, rounds, done, upto),
    ensures
        forall|j: int|
            0 <= j < suites.len() ==> (resolves_within(suites, j, done) <==> 0 < #[trigger] rounds[j]
                <= done),
{
    assert forall|j: int| 0 <= j < suites.len() implies (resolves_within(suites, j, done) <==> 0
        < #[trigger] rounds[j] <= done) by {
        if rounds[j] == 0 {
            if resolves_within(suites, j, done) {
                lemma_resolves_within_more(suites, j, done, done + 1);
            }
        } else if rounds[j] <= done {
            lemma_resolves_within_more(suites, j, rounds[j] as nat, done);
        }
    }
}

/// Once the suites are at rest, one that has not resolved never does.
proof fn lemma_at_rest(suites: Seq<Suite>, rounds: Seq<usize>, last: nat, j: int, k: nat)
    requires
        at_rest(suites, rounds, last),
        0 <= j < suites.len(),
        rounds[j] == 0,
    ensures
        !resolves_within(suites, j, k),
    decreases k,
{
    if resolves_within(suites, j, k) {
        if k <= last + 1 {
            lemma_resolves_within_more(suites, j, k, last + 1);
        } else {
            assert forall|r: int| 0 <= r < suites[j].requirements.len() implies exists|j2: int|
                0 <= j2 < suites.len() && (#[trigger] suites[j2]).name
                    == #[trigger] suites[j].requirements[r] && resolves_within(suites, j2, last) by {
                let j2 = choose|j2: int|
                    0 <= j2 < suites.len() && (#[trigger] suites[j2]).name
                        == suites[j].requirements[r] && resolves_within(
                        suites,
                        j2,
                        (k - 1) as nat,
                    );
                if rounds[j2] == 0 {
                    lemma_at_rest(suites, rounds, last, j2, (k - 1) as nat);
                }
                lemma_resolves_within_more(suites, j2, rounds[j2] as nat, last);
            }
        }
    }
}

/// Whether a suite that resolved in one of the first `done` rounds bears
/// `name`.
fn is_provided(suites: &[ActionSuite], rounds: &Vec<usize>, done: usize, name: &String) -> (yes:
    bool)
    requires
        rounds.len() == suites.len(),
    ensures
        yes == exists|j: int|
            0 <= j < suites.len() && (#[trigger] suites_view(suites@)[j]).name == name@ && 0
                < rounds[j] <= done,
{
    let ghost all = suites_view(suites@);
    let mut j: usize = 0;
    while j < suites.len()
        invariant
            j <= suites.len(),
            rounds.len() == suites.len(),
            all == suites_view(suites@),
            forall|k: int| 0 <= k < j ==> !((#[trigger] all[k]).name == name@ && 0 < rounds[k] <= done),
        decreases suites.len() - j,
    {
        assert(all[j as int] == suites@[j as int]@);
        if 0 < rounds[j] && rounds[j] <= done && suites[j].name == *name {
            return true;
        }
        j += 1;
    }
    false
}

/// Whether each requirement of suite `i` is the name of a suite that
/// resolved in one of the first `done` rounds.
fn is_ready(suites: &[ActionSuite], rounds: &Vec<usize>, done: usize, i: usize) -> (yes: bool)
    requires
        rounds.len() == suites.len(),
        i < suites.len(),
    ensures
        yes == forall|r: int|
            0 <= r < suites_view(suites@)[i as int].requirements.len() ==> exists|j: int|
                0 <= j < suites.len() && (#[trigger] suites_view(suites@)[j]).name
                    == #[trigger] suites_view(suites@)[i as int].requirements[r] && 0 < rounds[j]
                    <= done,
{
    let ghost all = suites_view(suites@);
    let requirements = &suites[i].requirements;
    let mut r: usize = 0;
    while r < requirements.len()
        invariant
            r <= requirements.len(),
            rounds.len() == suites.len(),
            all == suites_view(suites@),
            all[i as int].requirements == texts(requirements@),
            forall|k: int|
                0 <= k < r ==> exists|j: int|
                    0 <= j < suites.len() && (#[trigger] all[j]).name
                        == #[trigger] all[i as int].requirements[k] && 0 < rounds[j] <= done,
        decreases requirements.len() - r,
    {
        if !is_provided(suites, rounds, done, &requirements[r]) {
            assert(all[i as int].requirements[r as int] == requirements@[r as int]@);
            return false;
        }
        r += 1;
    }
    true
}

/// For each suite the round in which it resolves, 0 where it never does,
/// and the order in which the suites run.
pub fn rank(suites: &[ActionSuite]) -> (result: (Vec<usize>, Vec<usize>))
    ensures
        result.0@.len() == suites@.len(),
        forall|j: int|
            0 <= j < suites@.len() ==> if #[trigger] result.0@[j] > 0 {
                resolves_in(suites_view(suites@), j, result.0@[j] as nat)
            } else {
                !resolves(suites_view(suites@), j)
            },
        ordered(suites_view(suites@), result.0@, result.1@),
{
    let ghost all = suites_view(suites@);
    let n = suites.len();
    let mut rounds: Vec<usize> = Vec::new();
    while rounds.len() < n
        invariant
            rounds.len() <= n,
            forall|j: int| 0 <= j < rounds.len() ==> #[trigger] rounds@[j] == 0,
            count_resolved(rounds@) == 0,
        decreases n - rounds.len(),
    {
        let ghost before = rounds@;
        rounds.push(0);
        assert(rounds@.drop_last() =~= before);
    }
    let mut order: Vec<usize> = Vec::new();
    let mut done: usize = 0;
    let mut count: usize = 0;
    let mut progress = true;
    while progress && count < n
        invariant
            n == suites.len(),
            all == suites_view(suites@),
            in_round(all, rounds@, done as nat, 0),
            ordered(all, rounds@, order@),
            count == count_resolved(rounds@),
            count <= n,
            progress ==> done <= count,
            !progress ==> done > 0 && forall|j: int| 0 <= j < n ==> #[trigger] rounds@[j] < done,
        decreases
                n - count,
                if progress {
                    1nat
                } else {
                    0nat
                },
    {
        let next = done + 1;
        let ghost before = count;
        progress = false;
        let mut i: usize = 0;
        while i < n
            invariant
                i <= n,
                n == suites.len(),
                all == suites_view(suites@),
                next == done + 1,
                in_round(all, rounds@, done as nat, i as int),
                ordered(all, rounds@, order@),
                count == count_resolved(rounds@),
                count <= n,
                before <= count,
                progress ==> before < count,
                !progress ==> forall|j: int| 0 <= j < n ==> #[trigger] rounds@[j] < next,
            decreases n - i,
        {
            if rounds[i] == 0 {
                proof {
                    lemma_in_round(all, rounds@, done as nat, i as int);
                }
                if is_ready(suites, &rounds, done, i) {
                    let ghost old_order = order@;
                    proof {
                        lemma_count_update(rounds@, i as int, next);
                        lemma_count_bound(rounds@.update(i as int, next));
                    }
                    rounds.set(i, next);
                    order.push(i);
                    count += 1;
                    progress = true;
                    proof {
                        assert forall|j: int| 0 <= j < n && rounds@[j] > 0 implies #[trigger]
                            order@.contains(j as usize) by {
                            if j == i {
                                assert(order@[order@.len() - 1] == i);
                            } else {
                                assert(old_order.contains(j as usize));
                                let p = choose|p: int|
                                    0 <= p < old_order.len() && old_order[p] == j as usize;
                                assert(order@[p] == j as usize);
                            }
                        }
                    }
                }
            }
            i += 1;
        }
        done = next;
    }
    proof {
        lemma_count_bound(rounds@);
        let last: nat = if progress {
            done as nat
        } else {
            (done - 1) as nat
        };
        assert forall|j: int| 0 <= j < n && rounds@[j] == 0 implies !resolves(all, j) by {
            assert forall|k: nat| !resolves_within(all, j, k) by {
                lemma_at_rest(all, rounds@, last, j, k);
            }
        }
    }
    (rounds, order)
}

/// Whether `name` is among `known`.
fn holds_name(known: &Vec<String>, name: &String) -> (yes: bool)
    ensures
        yes == texts(known@).contains(name@),
{
    let ghost all = texts(known@);
    let mut i: usize = 0;
    while i < known.len()
        invariant
            i <= known.len(),
            all == texts(known@),
            forall|j: int| 0 <= j < i ==> #[trigger] all[j] != name@,
        decreases known.len() - i,
    {
        assert(all[i as int] == known@[i as int]@);
        if known[i] == *name {
            return true;
        }
        i += 1;
    }
    false
}

/// The requirements that cannot be met, as `unresolved` says. `rounds`
/// holds for each suite whether it resolves: 0 where it does not.
pub(crate) fn missing(suites: &[ActionSuite], rounds: &Vec<usize>) -> (missing: Vec<String>)
    requires
        rounds.len() == suites.len(),
        forall|j: int|
            0 <= j < suites@.len() ==> (#[trigger] rounds@[j] > 0 <==> resolves(
                suites_view(suites@),
                j,
            )),
    ensures
        texts(missing@) == unresolved(suites_view(suites@)),
{
    let ghost all = suites_view(suites@);
    let mut missing: Vec<String> = Vec::new();
    let mut i: usize = 0;
    while i < suites.len()
        invariant
            i <= suites.len(),
            rounds.len() == suites.len(),
            all == suites_view(suites@),
            forall|j: int| 0 <= j < suites@.len() ==> (#[trigger] rounds@[j] > 0 <==> resolves(all, j)),
            texts(missing@) == distinct(pending(all, i as int)),
        decreases suites.len() - i,
    {
        if rounds[i] == 0 {
            let requirements = &suites[i].requirements;
            let ghost wanted = all[i as int].requirements;
            let ghost so_far = pending(all, i as int);
            let mut r: usize = 0;
            while r < requirements.len()
                invariant
                    r <= requirements.len(),
                    rounds.len() == suites.len(),
                    all == suites_view(suites@),
                    wanted == texts(requirements@),
                    forall|j: int|
                        0 <= j < suites@.len() ==> (#[trigger] rounds@[j] > 0 <==> resolves(all, j)),
                    texts(missing@) == distinct(
                        so_far + wanted.take(r as int).filter(lacking(all)),
                    ),
                decreases requirements.len() - r,
            {
                let name = &requirements[r];
                let ghost held = wanted.take(r as int).filter(lacking(all));
                proof {
                    lemma_filter_step(wanted, lacking(all), r as int);
                }
                if !is_provided(suites, rounds, usize::MAX, name) {
                    let ghost longer = so_far + held.push(name@);
                    assert(longer.drop_last() =~= so_far + held);
                    if !holds_name(&missing, name) {
                        missing.push(name.clone());
                    }
                }
                r += 1;
            }
            assert(wanted.take(r as int) =~= wanted);
        }
        i += 1;
    }
    missing
}

} // verus!
