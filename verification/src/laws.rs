//! What holds of the commands and of the sweep that removes old proposals,
//! whatever the state.
use crate::clock::Timestamp;
use crate::state::{
    asks_who_is_there, group_position, groups_without, step, GroupView, ProposalView, StateView,
};
use crate::syntax::{split, CommandText};
use crate::text::joined;
use vstd::prelude::*;

verus! {

/// How many members the groups have, all in all.
pub open spec fn member_count(groups: Seq<GroupView>) -> nat
    decreases groups.len(),
{
    if groups.len() == 0 {
        0
    } else {
        member_count(groups.drop_last()) + groups.last().users.len()
    }
}

/// What is left of a sequence holds only items that were asked for, and
/// nothing more is removed from it when the same is asked again.
proof fn lemma_filter_settles<T>(s: Seq<T>, keep: spec_fn(T) -> bool)
    ensures
        forall|i: int| 0 <= i < s.filter(keep).len() ==> keep(#[trigger] s.filter(keep)[i]),
        s.filter(keep).filter(keep) == s.filter(keep),
    decreases s.len(),
{
    reveal(Seq::filter);
    if s.len() > 0 {
        lemma_filter_settles(s.drop_last(), keep);
        if keep(s.last()) {
            s.drop_last().filter(keep).lemma_filter_push(s.last(), keep);
        }
    }
}

/// Asking for more of what is left gives what asking for both at once gives.
proof fn lemma_filter_twice<T>(s: Seq<T>, first: spec_fn(T) -> bool, second: spec_fn(T) -> bool)
    ensures
        s.filter(first).filter(second) == s.filter(|x: T| first(x) && second(x)),
    decreases s.len(),
{
    reveal(Seq::filter);
    if s.len() > 0 {
        lemma_filter_twice(s.drop_last(), first, second);
        if first(s.last()) {
            s.drop_last().filter(first).lemma_filter_push(s.last(), second);
        }
    }
}

/// Two questions with the same answers leave the same items.
proof fn lemma_filter_same<T>(s: Seq<T>, a: spec_fn(T) -> bool, b: spec_fn(T) -> bool)
    requires
        forall|i: int| 0 <= i < s.len() ==> a(#[trigger] s[i]) == b(s[i]),
    ensures
        s.filter(a) == s.filter(b),
    decreases s.len(),
{
    reveal(Seq::filter);
    if s.len() > 0 {
        assert forall|i: int| 0 <= i < s.drop_last().len() implies a(#[trigger] s.drop_last()[i])
            == b(s.drop_last()[i]) by {
            assert(s.drop_last()[i] == s[i]);
        }
        lemma_filter_same(s.drop_last(), a, b);
    }
}

/// After the sweep at `now`, no proposal is left that has reached the maximal
/// age at `now`: each one is younger than two hours.
pub proof fn lemma_expire_leaves_recent(s: StateView, now: Timestamp)
    ensures
        forall|i: int|
            0 <= i < s.expire(now).proposals.len() ==> !(#[trigger] s.expire(
                now,
            ).proposals[i]).created.expired_at(now),
        s.expire(now).proposals.len() <= s.proposals.len(),
{
    lemma_filter_settles(s.proposals, |p: ProposalView| !p.created.expired_at(now));
    s.proposals.lemma_filter_len(|p: ProposalView| !p.created.expired_at(now));
}

/// A second sweep at the same instant removes nothing.
pub proof fn lemma_expire_twice(s: StateView, now: Timestamp)
    ensures
        s.expire(now).expire(now) == s.expire(now),
{
    lemma_filter_settles(s.proposals, |p: ProposalView| !p.created.expired_at(now));
}

/// A sweep at `later` after one at `now`, where `later` is not before `now`,
/// leaves what a single sweep at `later` leaves: what the first sweep removed
/// the second would have removed.
pub proof fn lemma_expire_later(s: StateView, now: Timestamp, later: Timestamp)
    requires
        now.total() <= later.total(),
    ensures
        s.expire(now).expire(later) == s.expire(later),
{
    let first = |p: ProposalView| !p.created.expired_at(now);
    let second = |p: ProposalView| !p.created.expired_at(later);
    lemma_filter_twice(s.proposals, first, second);
    lemma_filter_same(s.proposals, |p: ProposalView| first(p) && second(p), second);
}

/// A proposal is recorded whether or not the group it names exists: the
/// command adds the proposal, as it was given, behind the others and changes
/// nothing else.
pub proof fn lemma_propose_records(
    s: StateView,
    place: Seq<char>,
    time: Seq<char>,
    group: Option<Seq<char>>,
    meeting_point: Option<(Seq<char>, Seq<char>)>,
    live: Seq<Seq<char>>,
    now: Timestamp,
)
    ensures
        ({
            let after = step(
                s,
                Some(CommandText::Propose(place, time, group, meeting_point)),
                live,
                now,
            ).0;
            &&& after.proposals.len() == s.proposals.len() + 1
            &&& after.proposals.last() == (ProposalView {
                place,
                time,
                group,
                meeting_point,
                created: now,
            })
            &&& after.proposals.drop_last() == s.proposals
            &&& after.groups == s.groups
            &&& after.store == s.store
            &&& after.channel == s.channel
        }),
{
    let after = step(s, Some(CommandText::Propose(place, time, group, meeting_point)), live, now).0;
    assert(after.proposals.drop_last() =~= s.proposals);
}

/// Adding a member to a group that does not exist changes nothing: the state
/// stays as it is, and with it the number of members that the groups have.
pub proof fn lemma_add_user_unknown_group(
    s: StateView,
    user: Seq<char>,
    group: Seq<char>,
    live: Seq<Seq<char>>,
    now: Timestamp,
)
    requires
        group_position(s.groups, group, 0) is None,
    ensures
        step(s, Some(CommandText::AddUser(user, group)), live, now).0 == s,
        member_count(step(s, Some(CommandText::AddUser(user, group)), live, now).0.groups)
            == member_count(s.groups),
{
}

/// Everything is left of a sequence whose items are all asked for.
proof fn lemma_filter_all<T>(s: Seq<T>, keep: spec_fn(T) -> bool)
    requires
        forall|i: int| 0 <= i < s.len() ==> keep(#[trigger] s[i]),
    ensures
        s.filter(keep) == s,
    decreases s.len(),
{
    reveal(Seq::filter);
    if s.len() > 0 {
        assert forall|i: int| 0 <= i < s.drop_last().len() implies keep(
            #[trigger] s.drop_last()[i],
        ) by {
            assert(s.drop_last()[i] == s[i]);
        }
        lemma_filter_all(s.drop_last(), keep);
        assert(s.drop_last().push(s.last()) =~= s);
    }
}

/// Removing a group that does not exist changes nothing, and after a group
/// was removed none of its name is left.
pub proof fn lemma_remove_group(
    s: StateView,
    name: Seq<char>,
    live: Seq<Seq<char>>,
    now: Timestamp,
)
    ensures
        group_position(s.groups, name, 0) is None ==> step(
            s,
            Some(CommandText::GroupRemove(name)),
            live,
            now,
        ).0 == s,
        group_position(
            step(s, Some(CommandText::GroupRemove(name)), live, now).0.groups,
            name,
            0,
        ) is None,
{
    let keep = |g: GroupView| g.name != name;
    lemma_position(s.groups, name, 0);
    if group_position(s.groups, name, 0) is None {
        lemma_filter_all(s.groups, keep);
    }
    let left = groups_without(s.groups, name);
    lemma_filter_settles(s.groups, keep);
    lemma_position(left, name, 0);
}

/// Adding a member to a group that exists adds one member, all in all.
pub proof fn lemma_add_user_known_group(
    s: StateView,
    user: Seq<char>,
    group: Seq<char>,
    live: Seq<Seq<char>>,
    now: Timestamp,
)
    requires
        group_position(s.groups, group, 0) is Some,
    ensures
        member_count(step(s, Some(CommandText::AddUser(user, group)), live, now).0.groups)
            == member_count(s.groups) + 1,
{
    let i = group_position(s.groups, group, 0)->0;
    lemma_position(s.groups, group, 0);
    let g = GroupView { users: s.groups[i].users.push(user), ..s.groups[i] };
    lemma_count_update(s.groups, i, g);
}

/// Where the first group of a name stands, a group of that name stands.
pub proof fn lemma_position(groups: Seq<GroupView>, name: Seq<char>, from: int)
    requires
        0 <= from,
    ensures
        match group_position(groups, name, from) {
            Some(i) => from <= i < groups.len() && groups[i].name == name && forall|j: int|
                from <= j < i ==> (#[trigger] groups[j]).name != name,
            None => forall|j: int| from <= j < groups.len() ==> (#[trigger] groups[j]).name != name,
        },
    decreases groups.len() - from,
{
    if from < groups.len() && groups[from].name != name {
        lemma_position(groups, name, from + 1);
    }
}

/// Putting another group in the place of one changes the number of members by
/// the difference between the two.
proof fn lemma_count_update(groups: Seq<GroupView>, i: int, g: GroupView)
    requires
        0 <= i < groups.len(),
    ensures
        member_count(groups.update(i, g)) == member_count(groups) - groups[i].users.len()
            + g.users.len(),
    decreases groups.len(),
{
    if i == groups.len() - 1 {
        assert(groups.update(i, g).drop_last() =~= groups.drop_last());
    } else {
        lemma_count_update(groups.drop_last(), i, g);
        assert(groups.update(i, g).drop_last() =~= groups.drop_last().update(i, g));
    }
}

/// Who is present in the channel matters only to a proposal for a group that
/// exists: what any other command does and answers is the same whoever is
/// there.
pub proof fn lemma_step_without_presence(
    s: StateView,
    command: Option<CommandText>,
    live: Seq<Seq<char>>,
    other: Seq<Seq<char>>,
    now: Timestamp,
)
    requires
        !asks_who_is_there(s, command),
    ensures
        step(s, command, live, now) == step(s, command, other, now),
{
}

/// The instant matters only to a proposal: what any other command does and
/// answers is the same whenever it is given. The answer to a proposal does not
/// depend on the instant either.
pub proof fn lemma_step_without_clock(
    s: StateView,
    command: Option<CommandText>,
    live: Seq<Seq<char>>,
    now: Timestamp,
    later: Timestamp,
)
    ensures
        step(s, command, live, now).1 == step(s, command, live, later).1,
        !(command matches Some(CommandText::Propose(_, _, _, _))) ==> step(s, command, live, now)
            == step(s, command, live, later),
{
}

/// The pieces of a text, written with the separator between each two, are
/// the text again; there is at least one piece and no piece holds the
/// separator.
pub proof fn lemma_split_joined(s: Seq<char>, sep: char)
    ensures
        split(s, sep).len() >= 1,
        joined(split(s, sep), seq![sep]) == s,
        forall|i: int, j: int|
            0 <= i < split(s, sep).len() && 0 <= j < split(s, sep)[i].len() ==> #[trigger] split(
                s,
                sep,
            )[i][j] != sep,
    decreases s.len(),
{
    let pieces = split(s, sep);
    if s.len() == 0 {
        assert(joined(pieces, seq![sep]) =~= s);
    } else {
        let head = split(s.drop_last(), sep);
        lemma_split_joined(s.drop_last(), sep);
        if s.last() == sep {
            assert(pieces.drop_last() =~= head);
            assert(joined(pieces, seq![sep]) =~= s.drop_last() + seq![sep] + Seq::<char>::empty());
            assert(joined(pieces, seq![sep]) =~= s);
        } else {
            let last = head.last().push(s.last());
            assert(pieces.last() == last);
            assert(pieces.drop_last() =~= head.drop_last());
            if head.len() == 1 {
                assert(joined(head, seq![sep]) == head[0]);
                assert(joined(pieces, seq![sep]) =~= s);
            } else {
                assert(joined(pieces, seq![sep]) =~= joined(head.drop_last(), seq![sep]) + seq![
                    sep,
                ] + last);
                assert(joined(head, seq![sep]) =~= joined(head.drop_last(), seq![sep]) + seq![sep]
                    + head.last());
                assert(joined(pieces, seq![sep]) =~= joined(head, seq![sep]).push(s.last()));
                assert(s.drop_last().push(s.last()) =~= s);
            }
            assert forall|i: int, j: int|
                0 <= i < pieces.len() && 0 <= j < pieces[i].len() implies #[trigger] pieces[i][j]
                != sep by {
                if i < pieces.len() - 1 {
                    assert(pieces[i] == head[i]);
                } else if j < head.last().len() {
                    assert(pieces[i][j] == head.last()[j]);
                }
            }
        }
    }
}

} // verus!
