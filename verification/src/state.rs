//! The groups, the proposals and the counter that the commands act on.
use crate::clock::Timestamp;
use crate::encoding::{decode, encode};
use crate::syntax::{parse_command, parse_line, outcome, CommandText, ListOptions, LunchCommand};
use crate::text::{
    chars_of, decimal, decimal_text, has_prefix, join, joined, same_text, texts,
};
use vstd::prelude::*;
use vstd::string::*;

verus! {

/// A member of the channel, by nickname.
pub type User = String;

/// A named list of members. Members keep the order in which they were added
/// and one may occur more than once.
#[derive(Debug, PartialEq, Eq)]
pub struct Group {
    name: String,
    users: Vec<User>,
}

/// A group as a mathematical value.
pub struct GroupView {
    pub name: Seq<char>,
    pub users: Seq<Seq<char>>,
}

/// The position of the first nickname from `from` on that begins with `base`.
pub open spec fn first_match(base: Seq<char>, live: Seq<Seq<char>>, from: int) -> Option<int>
    decreases live.len() - from,
{
    if from < 0 || from >= live.len() {
        None
    } else if base.is_prefix_of(live[from]) {
        Some(from)
    } else {
        first_match(base, live, from + 1)
    }
}

/// The members as they are called right now: for each member in turn the first
/// of the nicknames `live` that begins with the member's name. A member that no
/// nickname begins with is left out.
pub open spec fn roster(bases: Seq<Seq<char>>, live: Seq<Seq<char>>) -> Seq<Seq<char>>
    decreases bases.len(),
{
    if bases.len() == 0 {
        Seq::empty()
    } else {
        let head = roster(bases.drop_last(), live);
        match first_match(bases.last(), live, 0) {
            Some(i) => head.push(live[i]),
            None => head,
        }
    }
}

impl View for Group {
    type V = GroupView;

    closed spec fn view(&self) -> GroupView {
        GroupView { name: self.name@, users: texts(self.users@) }
    }
}

impl Group {
    /// A group called `name` with the members `users`.
    pub fn new(name: &str, users: Vec<&str>) -> (g: Group)
        ensures
            g@ == (GroupView { name: name@, users: users@.map_values(|u: &str| u@) }),
    {
        let mut owned: Vec<User> = Vec::new();
        let mut i: usize = 0;
        while i < users.len()
            invariant
                i <= users@.len(),
                texts(owned@) == users@.map_values(|u: &str| u@).take(i as int),
            decreases users@.len() - i,
        {
            let ghost before = texts(owned@);
            owned.push(users[i].to_owned());
            proof {
                let all = users@.map_values(|u: &str| u@);
                assert(texts(owned@) =~= before.push(users@[i as int]@));
                assert(all.take(i + 1) =~= all.take(i as int).push(all[i as int]));
            }
            i += 1;
        }
        proof {
            let all = users@.map_values(|u: &str| u@);
            assert(all.take(users@.len() as int) =~= all);
        }
        Group { name: name.to_owned(), users: owned }
    }

    /// A group called `name` with the members `users`, from owned strings.
    pub fn from_parts(name: String, users: Vec<User>) -> (g: Group)
        ensures
            g@ == (GroupView { name: name@, users: texts(users@) }),
    {
        Group { name, users }
    }

    /// The group's name.
    pub fn name(&self) -> (name: &str)
        ensures
            name@ == self@.name,
    {
        self.name.as_str()
    }

    /// The group's members.
    pub fn users(&self) -> (users: &Vec<User>)
        ensures
            texts(users@) == self@.users,
    {
        &self.users
    }

    /// Adds `user` as the last member.
    pub fn push_user(&mut self, user: &str)
        ensures
            final(self)@ == (GroupView { users: old(self)@.users.push(user@), ..old(self)@ }),
    {
        let ghost before = texts(self.users@);
        self.users.push(user.to_owned());
        proof {
            assert(texts(self.users@) =~= before.push(user@));
        }
    }

    /// The group as its members are called right now, given the nicknames
    /// `users` that are present: a group without a name whose members are the
    /// `roster` of this group's members.
    pub fn update_names(&self, users: Vec<User>) -> (g: Group)
        ensures
            g@ == (GroupView { name: Seq::empty(), users: roster(self@.users, texts(users@)) }),
    {
        let ghost live = texts(users@);
        let ghost bases = texts(self.users@);
        let mut nicks: Vec<Vec<char>> = Vec::new();
        let mut k: usize = 0;
        while k < users.len()
            invariant
                k <= users@.len(),
                nicks@.len() == k,
                live == texts(users@),
                forall|j: int| 0 <= j < k ==> (#[trigger] nicks@[j])@ == live[j],
            decreases users@.len() - k,
        {
            nicks.push(chars_of(users[k].as_str()));
            k += 1;
        }
        let mut found: Vec<User> = Vec::new();
        let mut i: usize = 0;
        while i < self.users.len()
            invariant
                i <= self.users@.len(),
                nicks@.len() == users@.len(),
                live == texts(users@),
                bases == texts(self.users@),
                forall|j: int| 0 <= j < nicks@.len() ==> (#[trigger] nicks@[j])@ == live[j],
                texts(found@) == roster(bases.take(i as int), live),
            decreases self.users@.len() - i,
        {
            let base = chars_of(self.users[i].as_str());
            let mut j: usize = 0;
            let mut hit: Option<usize> = None;
            while j < nicks.len() && hit.is_none()
                invariant
                    j <= nicks@.len() == live.len(),
                    forall|m: int| 0 <= m < nicks@.len() ==> (#[trigger] nicks@[m])@ == live[m],
                    match hit {
                        Some(h) => h < nicks@.len() && first_match(base@, live, 0) == Some(
                            h as int,
                        ),
                        None => first_match(base@, live, 0) == first_match(base@, live, j as int),
                    },
                decreases nicks@.len() - j + (if hit.is_none() { 1int } else { 0int }),
            {
                if has_prefix(&nicks[j], &base) {
                    hit = Some(j);
                } else {
                    j += 1;
                }
            }
            let ghost before = texts(found@);
            proof {
                assert(bases.take(i + 1).drop_last() =~= bases.take(i as int));
                assert(bases.take(i + 1).last() == base@);
            }
            match hit {
                Some(h) => {
                    found.push(users[h].clone());
                    proof {
                        assert(texts(found@) =~= before.push(live[h as int]));
                    }
                },
                None => {},
            }
            i += 1;
        }
        proof {
            assert(bases.take(self.users@.len() as int) =~= bases);
        }
        Group { name: String::new(), users: found }
    }

    /// The members, separated by commas.
    pub fn to_string(&self) -> (out: String)
        ensures
            out@ == joined(self@.users, ","@),
    {
        join(&self.users, ",")
    }
}

/// A suggestion where and when to have lunch.
#[derive(Debug, PartialEq, Eq)]
pub struct Proposal {
    place: String,
    time: String,
    group: Option<String>,
    meeting_point: Option<(String, String)>,
    created: Timestamp,
}

/// A proposal as a mathematical value.
pub struct ProposalView {
    pub place: Seq<char>,
    pub time: Seq<char>,
    /// The name of the group that is asked along, as it was given: the group
    /// need not exist.
    pub group: Option<Seq<char>>,
    /// Where and when to meet before.
    pub meeting_point: Option<(Seq<char>, Seq<char>)>,
    /// When the proposal was made.
    pub created: Timestamp,
}

impl ProposalView {
    /// How a proposal is listed: `<place> at <time>`.
    pub open spec fn describe(self) -> Seq<char> {
        self.place + " at "@ + self.time
    }
}

impl View for Proposal {
    type V = ProposalView;

    closed spec fn view(&self) -> ProposalView {
        ProposalView {
            place: self.place@,
            time: self.time@,
            group: match self.group {
                Some(g) => Some(g@),
                None => None,
            },
            meeting_point: match self.meeting_point {
                Some((p, t)) => Some((p@, t@)),
                None => None,
            },
            created: self.created,
        }
    }
}

impl Proposal {
    /// A proposal made right now, for everybody.
    pub fn new(place: &str, time: &str) -> (p: Proposal)
        ensures
            p@.place == place@,
            p@.time == time@,
            p@.group is None,
            p@.meeting_point is None,
    {
        Proposal::from_parts(place.to_owned(), time.to_owned(), None, None, Timestamp::now())
    }

    /// A proposal made right now, for the group called `group`.
    pub fn new_with_group(place: &str, time: &str, group: &str) -> (p: Proposal)
        ensures
            p@.place == place@,
            p@.time == time@,
            p@.group == Some(group@),
            p@.meeting_point is None,
    {
        Proposal::from_parts(
            place.to_owned(),
            time.to_owned(),
            Some(group.to_owned()),
            None,
            Timestamp::now(),
        )
    }

    /// The proposal with these parts, made at `created`.
    pub fn from_parts(
        place: String,
        time: String,
        group: Option<String>,
        meeting_point: Option<(String, String)>,
        created: Timestamp,
    ) -> (p: Proposal)
        ensures
            p@ == (ProposalView {
                place: place@,
                time: time@,
                group: match group {
                    Some(g) => Some(g@),
                    None => None,
                },
                meeting_point: match meeting_point {
                    Some((p, t)) => Some((p@, t@)),
                    None => None,
                },
                created,
            }),
    {
        Proposal { place, time, group, meeting_point, created }
    }

    /// Where to have lunch.
    pub fn place(&self) -> (place: &str)
        ensures
            place@ == self@.place,
    {
        self.place.as_str()
    }

    /// When to have lunch.
    pub fn time(&self) -> (time: &str)
        ensures
            time@ == self@.time,
    {
        self.time.as_str()
    }

    /// The name of the group that is asked along.
    pub fn group(&self) -> (group: Option<&str>)
        ensures
            match group {
                Some(g) => self@.group == Some(g@),
                None => self@.group is None,
            },
    {
        match &self.group {
            Some(g) => Some(g.as_str()),
            None => None,
        }
    }

    /// Where and when to meet before.
    pub fn meeting_point(&self) -> (meet: Option<(&str, &str)>)
        ensures
            match meet {
                Some((p, t)) => self@.meeting_point == Some((p@, t@)),
                None => self@.meeting_point is None,
            },
    {
        match &self.meeting_point {
            Some((p, t)) => Some((p.as_str(), t.as_str())),
            None => None,
        }
    }

    /// When the proposal was made.
    pub fn created(&self) -> (created: Timestamp)
        ensures
            created == self@.created,
    {
        self.created
    }

    /// The proposal as it is listed: `<place> at <time>`.
    pub fn to_string(&self) -> (out: String)
        ensures
            out@ == self@.describe(),
    {
        let mut out = self.place.clone();
        out.append(" at ");
        out.append(self.time.as_str());
        out
    }
}

/// Has the lookups that the state needs from the chat network.
pub trait StateUpdateCallbacks {
    /// The nicknames that are present in `channel` right now; none where they
    /// cannot be had.
    fn get_list_of_users(&self, channel: &str) -> Vec<User>;
}

/// All that the bot remembers: the groups and the proposals in the order in
/// which they were made, a counter, and the channel the bot lives in.
#[derive(Debug, PartialEq, Eq)]
pub struct LunchBotState {
    groups: Vec<Group>,
    proposals: Vec<Proposal>,
    store: u32,
    channel: String,
}

/// The state as a mathematical value.
pub struct StateView {
    pub groups: Seq<GroupView>,
    pub proposals: Seq<ProposalView>,
    pub store: u32,
    pub channel: Seq<char>,
}

impl StateView {
    /// The state without the proposals that have reached the maximal age at
    /// `now`.
    pub open spec fn expire(self, now: Timestamp) -> StateView {
        StateView { proposals: unexpired(self.proposals, now), ..self }
    }
}

/// The groups of `groups` that are not called `name`.
pub open spec fn groups_without(groups: Seq<GroupView>, name: Seq<char>) -> Seq<GroupView> {
    groups.filter(|g: GroupView| g.name != name)
}

/// The position of the first group from `from` on that is called `name`.
pub open spec fn group_position(groups: Seq<GroupView>, name: Seq<char>, from: int) -> Option<int>
    decreases groups.len() - from,
{
    if from < 0 || from >= groups.len() {
        None
    } else if groups[from].name == name {
        Some(from)
    } else {
        group_position(groups, name, from + 1)
    }
}

/// The names of `groups`, in order.
pub open spec fn group_names(groups: Seq<GroupView>) -> Seq<Seq<char>> {
    groups.map_values(|g: GroupView| g.name)
}

/// The proposals of `proposals` that have not reached the maximal age at `now`.
pub open spec fn unexpired(proposals: Seq<ProposalView>, now: Timestamp) -> Seq<ProposalView> {
    proposals.filter(|p: ProposalView| !p.created.expired_at(now))
}

/// The views of a vector of groups.
pub open spec fn group_views(groups: Seq<Group>) -> Seq<GroupView> {
    groups.map_values(|g: Group| g@)
}

/// The views of a vector of proposals.
pub open spec fn proposal_views(proposals: Seq<Proposal>) -> Seq<ProposalView> {
    proposals.map_values(|p: Proposal| p@)
}

/// Nothing is left of an empty sequence, whatever is asked of its items.
pub proof fn lemma_filter_none<T>(s: Seq<T>, keep: spec_fn(T) -> bool)
    requires
        s.len() == 0,
    ensures
        s.filter(keep) == s,
{
    reveal(Seq::filter);
}

impl View for LunchBotState {
    type V = StateView;

    closed spec fn view(&self) -> StateView {
        StateView {
            groups: group_views(self.groups@),
            proposals: proposal_views(self.proposals@),
            store: self.store,
            channel: self.channel@,
        }
    }
}

impl LunchBotState {
    /// The state of a bot that has just come to `channel`: no group, no
    /// proposal, the counter at zero.
    pub fn new(channel: &str) -> (state: Self)
        ensures
            state@ == (StateView {
                groups: Seq::empty(),
                proposals: Seq::empty(),
                store: 0,
                channel: channel@,
            }),
    {
        let state = LunchBotState {
            groups: Vec::new(),
            proposals: Vec::new(),
            store: 0,
            channel: channel.to_owned(),
        };
        proof {
            assert(group_views(state.groups@) =~= Seq::empty());
            assert(proposal_views(state.proposals@) =~= Seq::empty());
        }
        state
    }

    /// The state with these parts.
    pub fn from_parts(groups: Vec<Group>, proposals: Vec<Proposal>, store: u32, channel: String) -> (state:
        Self)
        ensures
            state@ == (StateView {
                groups: group_views(groups@),
                proposals: proposal_views(proposals@),
                store,
                channel: channel@,
            }),
    {
        LunchBotState { groups, proposals, store, channel }
    }

    /// The groups, in the order in which they were made.
    pub fn groups(&self) -> (groups: &Vec<Group>)
        ensures
            group_views(groups@) == self@.groups,
    {
        &self.groups
    }

    /// The proposals, in the order in which they were made.
    pub fn proposals(&self) -> (proposals: &Vec<Proposal>)
        ensures
            proposal_views(proposals@) == self@.proposals,
    {
        &self.proposals
    }

    /// The counter.
    pub fn store(&self) -> (store: u32)
        ensures
            store == self@.store,
    {
        self.store
    }

    /// The channel the bot lives in.
    pub fn channel(&self) -> (channel: &str)
        ensures
            channel@ == self@.channel,
    {
        self.channel.as_str()
    }

    /// The position of the first group called `name`.
    pub fn group_index(&self, name: &str) -> (r: Option<usize>)
        ensures
            match r {
                Some(i) => i < self@.groups.len() && group_position(self@.groups, name@, 0)
                    == Some(i as int),
                None => group_position(self@.groups, name@, 0) is None,
            },
    {
        let ghost groups = group_views(self.groups@);
        let mut i: usize = 0;
        while i < self.groups.len()
            invariant
                i <= self.groups@.len(),
                groups == group_views(self.groups@),
                group_position(groups, name@, 0) == group_position(groups, name@, i as int),
            decreases self.groups@.len() - i,
        {
            if same_text(self.groups[i].name.as_str(), name) {
                return Some(i);
            }
            i += 1;
        }
        None
    }

    /// The first group called `name`, to be changed in place.
    pub fn get_group(&mut self, name: &str) -> (r: Option<&mut Group>)
        ensures
            match r {
                Some(g) => {
                    let at = group_position(old(self)@.groups, name@, 0);
                    &&& at is Some
                    &&& g@ == old(self)@.groups[at->0]
                    &&& final(self)@ == (StateView {
                        groups: old(self)@.groups.update(at->0, final(g)@),
                        ..old(self)@
                    })
                },
                None => group_position(old(self)@.groups, name@, 0) is None && final(self)@
                    == old(self)@,
            },
    {
        match self.group_index(name) {
            Some(i) => {
                proof {
                    assert forall|other: Group| #[trigger]
                        group_views(self.groups@.update(i as int, other)) == group_views(
                            self.groups@,
                        ).update(i as int, other@) by {
                        assert(group_views(self.groups@.update(i as int, other)) =~= group_views(
                            self.groups@,
                        ).update(i as int, other@));
                    }
                }
                Some(&mut self.groups[i])
            },
            None => None,
        }
    }

    /// Removes every group called `name` and says whether there was one.
    pub fn remove_group(&mut self, name: &str) -> (removed: bool)
        ensures
            final(self)@ == (StateView {
                groups: groups_without(old(self)@.groups, name@),
                ..old(self)@
            }),
            removed == group_position(old(self)@.groups, name@, 0) is Some,
    {
        let removed = self.group_index(name).is_some();
        let ghost all = group_views(self.groups@);
        let ghost mut j: int = 0;
        let mut i: usize = 0;
        proof {
            lemma_filter_none(all.take(0), |g: GroupView| g.name != name@);
            assert(group_views(self.groups@).take(0) =~= all.take(0));
            assert(group_views(self.groups@).skip(0) =~= all.skip(0));
        }
        while i < self.groups.len()
            invariant
                0 <= j <= all.len(),
                i <= self.groups@.len(),
                self.groups@.len() - i == all.len() - j,
                group_views(self.groups@).take(i as int) == groups_without(all.take(j), name@),
                group_views(self.groups@).skip(i as int) == all.skip(j),
                self.proposals == old(self).proposals,
                self.store == old(self).store,
                self.channel == old(self).channel,
            decreases self.groups@.len() - i,
        {
            let ghost cur = group_views(self.groups@);
            proof {
                assert(cur[i as int] == cur.skip(i as int)[0]);
                assert(all.take(j + 1) =~= all.take(j).push(all[j]));
                all.take(j).lemma_filter_push(all[j], |g: GroupView| g.name != name@);
            }
            if same_text(self.groups[i].name.as_str(), name) {
                self.groups.remove(i);
                proof {
                    assert(group_views(self.groups@) =~= cur.remove(i as int));
                    assert(cur.remove(i as int).take(i as int) =~= cur.take(i as int));
                    assert(cur.remove(i as int).skip(i as int) =~= cur.skip(i as int).skip(1));
                    assert(all.skip(j).skip(1) =~= all.skip(j + 1));
                }
            } else {
                proof {
                    assert(cur.take(i + 1) =~= cur.take(i as int).push(cur[i as int]));
                    assert(cur.skip(i + 1) =~= cur.skip(i as int).skip(1));
                    assert(all.skip(j).skip(1) =~= all.skip(j + 1));
                }
                i += 1;
            }
            proof {
                j = j + 1;
            }
        }
        proof {
            assert(group_views(self.groups@).take(i as int) =~= group_views(self.groups@));
            assert(all.take(j) =~= all);
        }
        removed
    }

    /// Removes every proposal that has reached the maximal age at `now` and
    /// says how many there were. A proposal made after `now` stays.
    pub fn expire_at(&mut self, now: Timestamp) -> (removed: usize)
        ensures
            final(self)@ == old(self)@.expire(now),
            removed == old(self)@.proposals.len() - final(self)@.proposals.len(),
    {
        let ghost all = proposal_views(self.proposals@);
        let ghost mut j: int = 0;
        let total = self.proposals.len();
        let mut i: usize = 0;
        let mut removed: usize = 0;
        proof {
            lemma_filter_none(all.take(0), |p: ProposalView| !p.created.expired_at(now));
            assert(proposal_views(self.proposals@).take(0) =~= all.take(0));
            assert(proposal_views(self.proposals@).skip(0) =~= all.skip(0));
        }
        while i < self.proposals.len()
            invariant
                0 <= j <= all.len(),
                i <= self.proposals@.len(),
                self.proposals@.len() - i == all.len() - j,
                removed == j - i,
                all.len() == old(self).proposals@.len() == total,
                proposal_views(self.proposals@).take(i as int) == unexpired(all.take(j), now),
                proposal_views(self.proposals@).skip(i as int) == all.skip(j),
                self.groups == old(self).groups,
                self.store == old(self).store,
                self.channel == old(self).channel,
            decreases self.proposals@.len() - i,
        {
            let ghost cur = proposal_views(self.proposals@);
            proof {
                assert(cur[i as int] == cur.skip(i as int)[0]);
                assert(all.take(j + 1) =~= all.take(j).push(all[j]));
                all.take(j).lemma_filter_push(
                    all[j],
                    |p: ProposalView| !p.created.expired_at(now),
                );
            }
            if self.proposals[i].created.is_expired_at(&now) {
                self.proposals.remove(i);
                removed += 1;
                proof {
                    assert(proposal_views(self.proposals@) =~= cur.remove(i as int));
                    assert(cur.remove(i as int).take(i as int) =~= cur.take(i as int));
                    assert(cur.remove(i as int).skip(i as int) =~= cur.skip(i as int).skip(1));
                    assert(all.skip(j).skip(1) =~= all.skip(j + 1));
                }
            } else {
                proof {
                    assert(cur.take(i + 1) =~= cur.take(i as int).push(cur[i as int]));
                    assert(cur.skip(i + 1) =~= cur.skip(i as int).skip(1));
                    assert(all.skip(j).skip(1) =~= all.skip(j + 1));
                }
                i += 1;
            }
            proof {
                j = j + 1;
            }
        }
        proof {
            assert(proposal_views(self.proposals@).take(i as int) =~= proposal_views(
                self.proposals@,
            ));
            assert(all.take(j) =~= all);
        }
        removed
    }

    /// Removes every proposal that has reached the maximal age by the system
    /// clock: what `expire_at` does for the instant that the clock shows.
    pub fn remove_old_proposals(&mut self)
        ensures
            exists|now: Timestamp| final(self)@ == #[trigger] old(self)@.expire(now),
    {
        let now = Timestamp::now();
        self.expire_at(now);
    }

    /// The names of the groups, separated by commas.
    pub fn list_of_groups(&self) -> (out: String)
        ensures
            out@ == joined(group_names(self@.groups), ","@),
    {
        let ghost names = group_names(group_views(self.groups@));
        let mut out = String::new();
        let mut i: usize = 0;
        while i < self.groups.len()
            invariant
                i <= self.groups@.len(),
                names == group_names(group_views(self.groups@)),
                out@ == joined(names.take(i as int), ","@),
            decreases self.groups@.len() - i,
        {
            proof {
                assert(names.take(i + 1).drop_last() =~= names.take(i as int));
                assert(names.take(i + 1).last() == self.groups@[i as int].name@);
            }
            if i > 0 {
                out.append(",");
            }
            out.append(self.groups[i].name.as_str());
            proof {
                if i == 0 {
                    assert(out@ =~= self.groups@[0].name@);
                }
            }
            i += 1;
        }
        proof {
            assert(names.take(self.groups@.len() as int) =~= names);
        }
        out
    }

    /// How many proposals there are.
    pub fn num_of_proposals(&self) -> (n: usize)
        ensures
            n == self@.proposals.len(),
    {
        self.proposals.len()
    }
}

/// What the bot answers to a line that is no command.
pub const USAGE: &'static str =
    "Usage: lb add <number> | lb add <user> to <group> | lb group add <group> <user>,<user>,.. | lb group remove <group> | lb propose <place> [at|@] <time> [to <group>] [meet <place> <time>] | lb list [groups|proposals] | lb dumpstate | lb restore <state>";

/// The sum of `a` and `b`, counted round from zero again past the largest
/// number of 32 bits.
pub open spec fn wrapped_sum(a: u32, b: u32) -> u32 {
    ((a + b) % 0x1_0000_0000) as u32
}

/// How the proposals are listed: each as `<place> at <time>`.
pub open spec fn descriptions(proposals: Seq<ProposalView>) -> Seq<Seq<char>> {
    proposals.map_values(|p: ProposalView| p.describe())
}

/// Where to go and when, as the answers to a proposal end.
pub open spec fn go_to(place: Seq<char>, time: Seq<char>) -> Seq<char> {
    " go to "@ + place + " at "@ + time
}

/// What a command does: the state after it and the answer to it, given the
/// state before, the nicknames `live` that are present in the channel and the
/// instant `now`. Nothing (a line that is no command) leaves the state as it is
/// and is answered with the usage.
///
/// The counter wraps round. A member is added to the first group of the name,
/// and a group is made whether or not another has its name. A proposal is
/// recorded with the group's name as it was given, whether or not the group
/// exists; only the answer tells. A text that holds no state restores nothing.
pub open spec fn step(
    s: StateView,
    command: Option<CommandText>,
    live: Seq<Seq<char>>,
    now: Timestamp,
) -> (StateView, Seq<char>) {
    match command {
        Some(CommandText::Add(n)) => {
            let store = wrapped_sum(s.store, n);
            (StateView { store, ..s }, "Store: "@ + decimal(store as nat))
        },
        Some(CommandText::AddUser(user, group)) => match group_position(s.groups, group, 0) {
            Some(i) => {
                let g = GroupView { users: s.groups[i].users.push(user), ..s.groups[i] };
                (
                    StateView { groups: s.groups.update(i, g), ..s },
                    "Group "@ + g.name + " updated: "@ + joined(g.users, ","@),
                )
            },
            None => (s, "No group named "@ + group),
        },
        Some(CommandText::GroupAdd(name, users)) => (
            StateView { groups: s.groups.push(GroupView { name, users }), ..s },
            "New group: "@ + name + " - "@ + joined(users, ","@),
        ),
        Some(CommandText::GroupRemove(name)) => (
            StateView { groups: groups_without(s.groups, name), ..s },
            if group_position(s.groups, name, 0) is Some {
                "Group "@ + name + " has been removed"@
            } else {
                "No such group: "@ + name
            },
        ),
        Some(CommandText::Propose(place, time, group, meeting_point)) => (
            StateView {
                proposals: s.proposals.push(
                    ProposalView { place, time, group, meeting_point, created: now },
                ),
                ..s
            },
            match group {
                Some(g) => match group_position(s.groups, g, 0) {
                    Some(i) => joined(roster(s.groups[i].users, live), ","@) + go_to(place, time),
                    None => "-No such group-"@ + go_to(place, time),
                },
                None => "New proposal:"@ + go_to(place, time),
            },
        ),
        Some(CommandText::List(ListOptions::Proposals)) => (
            s,
            "All proposals: ["@ + joined(descriptions(s.proposals), ", "@) + "]"@,
        ),
        Some(CommandText::List(ListOptions::Groups)) => (
            s,
            "Groups: "@ + joined(group_names(s.groups), ","@),
        ),
        Some(CommandText::DumpState) => (s, encode(s)),
        Some(CommandText::RestoreState(payload)) => match decode(payload) {
            Some(restored) => (restored, "Success"@),
            None => (s, "Fail"@),
        },
        None => (s, USAGE@),
    }
}

/// Whether the answer to `command` depends on who is present in the channel:
/// it does for a proposal to a group that exists.
pub open spec fn asks_who_is_there(s: StateView, command: Option<CommandText>) -> bool {
    match command {
        Some(CommandText::Propose(_, _, Some(g), _)) => group_position(s.groups, g, 0) is Some,
        _ => false,
    }
}

/// The end of the answer to a proposal: ` go to <place> at <time>`.
fn go_to_text(place: &str, time: &str) -> (out: String)
    ensures
        out@ == go_to(place@, time@),
{
    let mut out = String::new();
    out.append(" go to ");
    out.append(place);
    out.append(" at ");
    out.append(time);
    proof {
        assert(out@ =~= go_to(place@, time@));
    }
    out
}

impl LunchBotState {
    /// How the proposals are listed: each as `<place> at <time>`, with a comma
    /// and a space between each two.
    pub fn list_of_proposals(&self) -> (out: String)
        ensures
            out@ == joined(descriptions(self@.proposals), ", "@),
    {
        let ghost wanted = descriptions(proposal_views(self.proposals@));
        let mut items: Vec<String> = Vec::new();
        let mut i: usize = 0;
        while i < self.proposals.len()
            invariant
                i <= self.proposals@.len(),
                wanted == descriptions(proposal_views(self.proposals@)),
                texts(items@) == wanted.take(i as int),
            decreases self.proposals@.len() - i,
        {
            let ghost before = texts(items@);
            let item = self.proposals[i].to_string();
            items.push(item);
            proof {
                assert(texts(items@) =~= before.push(item@));
                assert(wanted.take(i + 1) =~= wanted.take(i as int).push(wanted[i as int]));
            }
            i += 1;
        }
        proof {
            assert(wanted.take(self.proposals@.len() as int) =~= wanted);
        }
        join(&items, ", ")
    }

    /// Does what `command` asks and answers it, given the nicknames `live`
    /// that are present in the channel and the instant `now`.
    pub fn apply(
        &mut self,
        command: Option<LunchCommand>,
        live: Vec<User>,
        now: Timestamp,
    ) -> (reply: String)
        ensures
            (final(self)@, reply@) == step(old(self)@, outcome(command), texts(live@), now),
    {
        match command {
            Some(LunchCommand::Add(n)) => {
                let sum: u64 = self.store as u64 + n as u64;
                self.store = (sum % 0x1_0000_0000) as u32;
                let mut reply = String::new();
                reply.append("Store: ");
                reply.append(decimal_text(self.store as u64).as_str());
                proof {
                    assert(reply@ =~= "Store: "@ + decimal(self.store as nat));
                }
                reply
            },
            Some(LunchCommand::AddUser(user, group)) => self.add_user(user, group),
            Some(LunchCommand::GroupAdd(name, users)) => {
                let ghost members = users@.map_values(|u: &str| u@);
                let group = Group::new(name, users);
                let mut reply = String::new();
                reply.append("New group: ");
                reply.append(name);
                reply.append(" - ");
                reply.append(group.to_string().as_str());
                let ghost before = group_views(self.groups@);
                let ghost made = group@;
                self.groups.push(group);
                proof {
                    assert(group_views(self.groups@) =~= before.push(made));
                    assert(reply@ =~= "New group: "@ + name@ + " - "@ + joined(members, ","@));
                }
                reply
            },
            Some(LunchCommand::GroupRemove(name)) => {
                let mut reply = String::new();
                if self.remove_group(name) {
                    reply.append("Group ");
                    reply.append(name);
                    reply.append(" has been removed");
                    proof {
                        assert(reply@ =~= "Group "@ + name@ + " has been removed"@);
                    }
                } else {
                    reply.append("No such group: ");
                    reply.append(name);
                    proof {
                        assert(reply@ =~= "No such group: "@ + name@);
                    }
                }
                reply
            },
            Some(LunchCommand::Propose(place, time, group, meet)) => self.propose(
                place,
                time,
                group,
                meet,
                live,
                now,
            ),
            Some(LunchCommand::List(ListOptions::Proposals)) => {
                let mut reply = String::new();
                reply.append("All proposals: [");
                reply.append(self.list_of_proposals().as_str());
                reply.append("]");
                proof {
                    assert(reply@ =~= "All proposals: ["@ + joined(
                        descriptions(self@.proposals),
                        ", "@,
                    ) + "]"@);
                }
                reply
            },
            Some(LunchCommand::List(ListOptions::Groups)) => {
                let mut reply = String::new();
                reply.append("Groups: ");
                reply.append(self.list_of_groups().as_str());
                proof {
                    assert(reply@ =~= "Groups: "@ + joined(group_names(self@.groups), ","@));
                }
                reply
            },
            Some(LunchCommand::DumpState) => self.serialize(),
            Some(LunchCommand::RestoreState(payload)) => {
                match LunchBotState::deserialize(payload) {
                    Some(restored) => {
                        *self = restored;
                        "Success".to_owned()
                    },
                    None => "Fail".to_owned(),
                }
            },
            None => USAGE.to_owned(),
        }
    }

    /// Adds `user` to the first group called `group` and answers.
    fn add_user(&mut self, user: &str, group: &str) -> (reply: String)
        ensures
            (final(self)@, reply@) == step(
                old(self)@,
                Some(CommandText::AddUser(user@, group@)),
                Seq::empty(),
                Timestamp { secs: 0, nanos: 0 },
            ),
    {
        let mut reply = String::new();
        match self.get_group(group) {
            Some(g) => {
                g.push_user(user);
                reply.append("Group ");
                reply.append(g.name());
                reply.append(" updated: ");
                reply.append(g.to_string().as_str());
                proof {
                    assert(reply@ =~= "Group "@ + g@.name + " updated: "@ + joined(
                        g@.users,
                        ","@,
                    ));
                }
            },
            None => {
                reply.append("No group named ");
                reply.append(group);
                proof {
                    assert(reply@ =~= "No group named "@ + group@);
                }
            },
        }
        reply
    }

    /// Records a proposal and answers.
    fn propose(
        &mut self,
        place: &str,
        time: &str,
        group: Option<&str>,
        meet: Option<(&str, &str)>,
        live: Vec<User>,
        now: Timestamp,
    ) -> (reply: String)
        ensures
            (final(self)@, reply@) == step(
                old(self)@,
                Some(
                    CommandText::Propose(
                        place@,
                        time@,
                        match group {
                            Some(g) => Some(g@),
                            None => None,
                        },
                        match meet {
                            Some((p, t)) => Some((p@, t@)),
                            None => None,
                        },
                    ),
                ),
                texts(live@),
                now,
            ),
    {
        let mut reply = String::new();
        match group {
            Some(g) => match self.group_index(g) {
                Some(i) => {
                    let present = self.groups[i].update_names(live);
                    reply.append(present.to_string().as_str());
                },
                None => {
                    reply.append("-No such group-");
                },
            },
            None => {
                reply.append("New proposal:");
            },
        }
        reply.append(go_to_text(place, time).as_str());
        let proposal = Proposal::from_parts(
            place.to_owned(),
            time.to_owned(),
            match group {
                Some(g) => Some(g.to_owned()),
                None => None,
            },
            match meet {
                Some((p, t)) => Some((p.to_owned(), t.to_owned())),
                None => None,
            },
            now,
        );
        let ghost before = proposal_views(self.proposals@);
        let ghost made = proposal@;
        self.proposals.push(proposal);
        proof {
            assert(proposal_views(self.proposals@) =~= before.push(made));
        }
        reply
    }
}

/// Reads `line` and does what it asks: the state is changed and the answer
/// returned. `cb` is asked who is present in the state's channel where the
/// answer depends on it, and the system clock is read where a proposal is
/// made.
///
/// The state and the answer are those of `step` for the command that the line
/// holds; who is present and the instant are whatever `cb` and the clock gave.
pub fn update_state<T>(line: &str, state: &mut LunchBotState, cb: &T) -> (reply: String) where
    T: StateUpdateCallbacks,

    ensures
        exists|live: Seq<Seq<char>>, now: Timestamp|
            (final(state)@, reply@) == #[trigger] step(old(state)@, parse_line(line@), live, now),
{
    let command = parse_command(line);
    let live = match &command {
        Some(LunchCommand::Propose(_, _, Some(g), _)) => {
            if state.group_index(g).is_some() {
                cb.get_list_of_users(state.channel.as_str())
            } else {
                Vec::new()
            }
        },
        _ => Vec::new(),
    };
    let now = match &command {
        Some(LunchCommand::Propose(_, _, _, _)) => Timestamp::now(),
        _ => Timestamp { secs: 0, nanos: 0 },
    };
    state.apply(command, live, now)
}

} // verus!
