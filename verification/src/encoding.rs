//! The state as text, for backups: an object of the JSON notation, written
//! without spaces and with its fields in a fixed order. A proposal has the
//! field of its meeting point only where it has a meeting point.
//!
//! `encode` says what is written for a state and `decode` what is read from a
//! text. Reading is strict: a text is read back in the form in which it is
//! written here, and in no other form of the notation.
use crate::clock::Timestamp;
use crate::state::{
    group_views, proposal_views, Group, GroupView, LunchBotState, Proposal, ProposalView,
    StateView, User,
};
use crate::syntax::{expect, lemma_run, lit_end, number, run_end, scan, Class};
use crate::text::{
    chars_of, decimal, decimal_text, decimal_value, digit_char, digit_value, is_digit, joined,
    texts,
};
use vstd::prelude::*;
use vstd::string::*;

verus! {

/// The character that writes `d` as a digit of base 16.
pub open spec fn hex_char(d: nat) -> char
    recommends
        d < 16,
{
    if d < 10 {
        digit_char(d)
    } else {
        (('a' as u8) + (d - 10)) as u8 as char
    }
}

/// The letter that stands behind a backslash for `c`, where `c` is written
/// that way: the quote, the backslash, and the five control characters that
/// have a letter of their own.
pub open spec fn short_escape(c: char) -> Option<char> {
    if c == '"' || c == '\\' {
        Some(c)
    } else if c == '\u{8}' {
        Some('b')
    } else if c == '\t' {
        Some('t')
    } else if c == '\n' {
        Some('n')
    } else if c == '\u{c}' {
        Some('f')
    } else if c == '\r' {
        Some('r')
    } else {
        None
    }
}

/// The character that a backslash and `letter` stand for.
pub open spec fn short_escaped(letter: char) -> Option<char> {
    if letter == '"' || letter == '\\' {
        Some(letter)
    } else if letter == 'b' {
        Some('\u{8}')
    } else if letter == 't' {
        Some('\t')
    } else if letter == 'n' {
        Some('\n')
    } else if letter == 'f' {
        Some('\u{c}')
    } else if letter == 'r' {
        Some('\r')
    } else {
        None
    }
}

/// How one character is written inside quotes: behind a backslash where it
/// has a letter for that, any other control character below the space as
/// `\u00` and two digits of base 16, every other character as itself.
pub open spec fn escape_char(c: char) -> Seq<char> {
    if short_escape(c) is Some {
        seq!['\\', short_escape(c)->0]
    } else if (c as u32) < 0x20 {
        seq!['\\', 'u', '0', '0', hex_char((c as u32 / 16) as nat), hex_char((c as u32 % 16) as nat)]
    } else {
        seq![c]
    }
}

/// How a text is written inside quotes: character by character.
pub open spec fn escape(v: Seq<char>) -> Seq<char>
    decreases v.len(),
{
    if v.len() == 0 {
        Seq::empty()
    } else {
        escape_char(v[0]) + escape(v.drop_first())
    }
}

/// A text between quotes.
pub open spec fn quoted(v: Seq<char>) -> Seq<char> {
    seq!['"'] + escape(v) + seq!['"']
}

/// A text between quotes, or `null` where there is none.
pub open spec fn quoted_or_null(v: Option<Seq<char>>) -> Seq<char> {
    match v {
        Some(t) => quoted(t),
        None => "null"@,
    }
}

/// A list of items that are already written.
pub open spec fn list_of(items: Seq<Seq<char>>) -> Seq<char> {
    seq!['['] + joined(items, seq![',']) + seq![']']
}

/// What writes a text as an item of a list.
pub open spec fn text_writer() -> spec_fn(Seq<char>) -> Seq<char> {
    |v: Seq<char>| quoted(v)
}

/// What writes a group as an item of a list.
pub open spec fn group_writer() -> spec_fn(GroupView) -> Seq<char> {
    |g: GroupView| group_text(g)
}

/// What writes a proposal as an item of a list.
pub open spec fn proposal_writer() -> spec_fn(ProposalView) -> Seq<char> {
    |p: ProposalView| proposal_text(p)
}

/// A group as text.
pub open spec fn group_text(g: GroupView) -> Seq<char> {
    "{\"name\":"@ + quoted(g.name) + ",\"users\":"@ + list_of(g.users.map_values(text_writer()))
        + seq!['}']
}

/// An instant as text.
pub open spec fn timestamp_text(t: Timestamp) -> Seq<char> {
    "{\"secs_since_epoch\":"@ + decimal(t.secs as nat) + ",\"nanos_since_epoch\":"@ + decimal(
        t.nanos as nat,
    ) + seq!['}']
}

/// A place and a time as the fields that an object starts with.
pub open spec fn place_and_time(place: Seq<char>, time: Seq<char>) -> Seq<char> {
    "{\"place\":"@ + quoted(place) + ",\"time\":"@ + quoted(time)
}

/// The field of a proposal that holds its meeting point; nothing where the
/// proposal has none.
pub open spec fn meeting_field(m: Option<(Seq<char>, Seq<char>)>) -> Seq<char> {
    match m {
        Some((place, time)) => ",\"meeting_point\":"@ + place_and_time(place, time) + seq!['}'],
        None => Seq::empty(),
    }
}

/// A proposal as text.
pub open spec fn proposal_text(p: ProposalView) -> Seq<char> {
    place_and_time(p.place, p.time) + ",\"group\":"@ + quoted_or_null(p.group)
        + ",\"created\":"@ + timestamp_text(p.created) + meeting_field(p.meeting_point) + seq![
        '}',
    ]
}

/// The state as text.
pub open spec fn encode(s: StateView) -> Seq<char> {
    "{\"groups\":"@ + list_of(s.groups.map_values(group_writer())) + ",\"proposals\":"@ + list_of(
        s.proposals.map_values(proposal_writer()),
    ) + ",\"store\":"@ + decimal(s.store as nat) + ",\"channel\":"@ + quoted(s.channel) + seq!['}']
}

/// The digit of base 16 that `c` writes.
pub open spec fn hex_value(c: char) -> Option<nat> {
    if is_digit(c) {
        Some(digit_value(c))
    } else if 'a' <= c <= 'f' {
        Some((c as u8 - 'a' as u8 + 10) as nat)
    } else {
        None
    }
}

/// The character that is written at `i` inside quotes, and where what writes
/// it ends. A quote or a control character written as itself is none.
pub open spec fn unescape_char(s: Seq<char>, i: int) -> Option<(char, int)> {
    if i < 0 || i >= s.len() {
        None
    } else if s[i] == '\\' {
        if i + 1 < s.len() && short_escaped(s[i + 1]) is Some {
            Some((short_escaped(s[i + 1])->0, i + 2))
        } else if i + 5 < s.len() && s[i + 1] == 'u' && s[i + 2] == '0' && s[i + 3] == '0' && (s[i
            + 4] == '0' || s[i + 4] == '1') && hex_value(s[i + 5]) is Some {
            Some((((digit_value(s[i + 4]) * 16 + hex_value(s[i + 5])->0) as u8) as char, i + 6))
        } else {
            None
        }
    } else if s[i] == '"' || (s[i] as u32) < 0x20 {
        None
    } else {
        Some((s[i], i + 1))
    }
}

/// The text that is written from `i` up to the closing quote, behind `acc`,
/// and the position behind that quote.
pub open spec fn unescape(s: Seq<char>, i: int, acc: Seq<char>) -> Option<(Seq<char>, int)>
    decreases s.len() - i,
{
    if 0 <= i < s.len() && s[i] == '"' {
        Some((acc, i + 1))
    } else {
        match unescape_char(s, i) {
            Some((c, j)) => if i < j {
                unescape(s, j, acc.push(c))
            } else {
                None
            },
            None => None,
        }
    }
}

/// The text between quotes at `i`, and where it ends.
pub open spec fn text_at(s: Seq<char>, i: int) -> Option<(Seq<char>, int)> {
    if 0 <= i < s.len() && s[i] == '"' {
        unescape(s, i + 1, Seq::empty())
    } else {
        None
    }
}

/// The text between quotes at `i`, or none where `null` stands there.
pub open spec fn text_or_null_at(s: Seq<char>, i: int) -> Option<(Option<Seq<char>>, int)> {
    match lit_end(s, i, "null"@) {
        Some(j) => Some((None, j)),
        None => match text_at(s, i) {
            Some((t, j)) => Some((Some(t), j)),
            None => None,
        },
    }
}

/// The number up to `max` that the digits at `i` denote, and where they end.
pub open spec fn number_at(s: Seq<char>, i: int, max: nat) -> Option<(nat, int)> {
    let j = run_end(s, Class::Digit, i);
    if 0 <= i < j && decimal_value(s.subrange(i, j)) <= max {
        Some((decimal_value(s.subrange(i, j)), j))
    } else {
        None
    }
}

/// The items from `i` up to the closing bracket, behind `acc`, each read by
/// `read` and a comma between each two, and the position behind the bracket.
pub open spec fn items_at<T>(
    s: Seq<char>,
    i: int,
    read: spec_fn(Seq<char>, int) -> Option<(T, int)>,
    acc: Seq<T>,
) -> Option<(Seq<T>, int)>
    decreases s.len() - i,
{
    match read(s, i) {
        Some((v, j)) => if i < j < s.len() {
            if s[j] == ']' {
                Some((acc.push(v), j + 1))
            } else if s[j] == ',' {
                items_at(s, j + 1, read, acc.push(v))
            } else {
                None
            }
        } else {
            None
        },
        None => None,
    }
}

/// The list at `i`, its items read by `read`, and where it ends.
pub open spec fn list_at<T>(
    s: Seq<char>,
    i: int,
    read: spec_fn(Seq<char>, int) -> Option<(T, int)>,
) -> Option<(Seq<T>, int)> {
    if 0 <= i < s.len() && s[i] == '[' {
        if i + 1 < s.len() && s[i + 1] == ']' {
            Some((Seq::empty(), i + 2))
        } else {
            items_at(s, i + 1, read, Seq::empty())
        }
    } else {
        None
    }
}

/// What reads a text as an item of a list.
pub open spec fn text_reader() -> spec_fn(Seq<char>, int) -> Option<(Seq<char>, int)> {
    |s: Seq<char>, i: int| text_at(s, i)
}

/// What reads a group as an item of a list.
pub open spec fn group_reader() -> spec_fn(Seq<char>, int) -> Option<(GroupView, int)> {
    |s: Seq<char>, i: int| group_at(s, i)
}

/// What reads a proposal as an item of a list.
pub open spec fn proposal_reader() -> spec_fn(Seq<char>, int) -> Option<(ProposalView, int)> {
    |s: Seq<char>, i: int| proposal_at(s, i)
}

/// The group at `i`, and where it ends.
pub open spec fn group_at(s: Seq<char>, i: int) -> Option<(GroupView, int)> {
    match lit_end(s, i, "{\"name\":"@) {
        Some(a) => match text_at(s, a) {
            Some((name, b)) => match lit_end(s, b, ",\"users\":"@) {
                Some(c) => match list_at(s, c, text_reader()) {
                    Some((users, d)) => match lit_end(s, d, seq!['}']) {
                        Some(e) => Some((GroupView { name, users }, e)),
                        None => None,
                    },
                    None => None,
                },
                None => None,
            },
            None => None,
        },
        None => None,
    }
}

/// The instant at `i`, and where it ends.
pub open spec fn timestamp_at(s: Seq<char>, i: int) -> Option<(Timestamp, int)> {
    match lit_end(s, i, "{\"secs_since_epoch\":"@) {
        Some(a) => match number_at(s, a, u64::MAX as nat) {
            Some((secs, b)) => match lit_end(s, b, ",\"nanos_since_epoch\":"@) {
                Some(c) => match number_at(s, c, u32::MAX as nat) {
                    Some((nanos, d)) => match lit_end(s, d, seq!['}']) {
                        Some(e) => Some((Timestamp { secs: secs as u64, nanos: nanos as u32 }, e)),
                        None => None,
                    },
                    None => None,
                },
                None => None,
            },
            None => None,
        },
        None => None,
    }
}

/// The place and the time that the object at `i` starts with, and where the
/// time ends.
pub open spec fn place_and_time_at(s: Seq<char>, i: int) -> Option<(Seq<char>, Seq<char>, int)> {
    match lit_end(s, i, "{\"place\":"@) {
        Some(a) => match text_at(s, a) {
            Some((place, b)) => match lit_end(s, b, ",\"time\":"@) {
                Some(c) => match text_at(s, c) {
                    Some((time, d)) => Some((place, time, d)),
                    None => None,
                },
                None => None,
            },
            None => None,
        },
        None => None,
    }
}

/// The meeting point that the field at `i` holds, and where the field ends;
/// no meeting point, and `i` itself, where no such field starts at `i`.
pub open spec fn meeting_field_at(s: Seq<char>, i: int) -> Option<
    (Option<(Seq<char>, Seq<char>)>, int),
> {
    match lit_end(s, i, ",\"meeting_point\":"@) {
        Some(a) => match place_and_time_at(s, a) {
            Some((place, time, b)) => match lit_end(s, b, seq!['}']) {
                Some(c) => Some((Some((place, time)), c)),
                None => None,
            },
            None => None,
        },
        None => Some((None, i)),
    }
}

/// The group of the proposal at `i` and the instant at which it was made,
/// given that place and time end at `i`, and where the instant ends.
pub open spec fn group_and_created_at(s: Seq<char>, i: int) -> Option<
    (Option<Seq<char>>, Timestamp, int),
> {
    match lit_end(s, i, ",\"group\":"@) {
        Some(a) => match text_or_null_at(s, a) {
            Some((group, b)) => match lit_end(s, b, ",\"created\":"@) {
                Some(c) => match timestamp_at(s, c) {
                    Some((created, d)) => Some((group, created, d)),
                    None => None,
                },
                None => None,
            },
            None => None,
        },
        None => None,
    }
}

/// The proposal at `i`, and where it ends.
pub open spec fn proposal_at(s: Seq<char>, i: int) -> Option<(ProposalView, int)> {
    match place_and_time_at(s, i) {
        Some((place, time, a)) => match group_and_created_at(s, a) {
            Some((group, created, b)) => match meeting_field_at(s, b) {
                Some((meeting_point, c)) => match lit_end(s, c, seq!['}']) {
                    Some(d) => Some(
                        (ProposalView { place, time, group, meeting_point, created }, d),
                    ),
                    None => None,
                },
                None => None,
            },
            None => None,
        },
        None => None,
    }
}

/// The groups and the proposals of the state at `i`, and where the proposals
/// end.
pub open spec fn state_head_at(s: Seq<char>, i: int) -> Option<
    (Seq<GroupView>, Seq<ProposalView>, int),
> {
    match lit_end(s, i, "{\"groups\":"@) {
        Some(a) => match list_at(s, a, group_reader()) {
            Some((groups, b)) => match lit_end(s, b, ",\"proposals\":"@) {
                Some(c) => match list_at(s, c, proposal_reader()) {
                    Some((proposals, d)) => Some((groups, proposals, d)),
                    None => None,
                },
                None => None,
            },
            None => None,
        },
        None => None,
    }
}

/// The state at `i`, and where it ends.
pub open spec fn state_at(s: Seq<char>, i: int) -> Option<(StateView, int)> {
    match state_head_at(s, i) {
        Some((groups, proposals, a)) => match lit_end(s, a, ",\"store\":"@) {
            Some(b) => match number_at(s, b, u32::MAX as nat) {
                Some((store, c)) => match lit_end(s, c, ",\"channel\":"@) {
                    Some(d) => match text_at(s, d) {
                        Some((channel, e)) => match lit_end(s, e, seq!['}']) {
                            Some(f) => Some(
                                (StateView { groups, proposals, store: store as u32, channel }, f),
                            ),
                            None => None,
                        },
                        None => None,
                    },
                    None => None,
                },
                None => None,
            },
            None => None,
        },
        None => None,
    }
}

/// The state that a text holds: the text is a state as `encode` writes one,
/// from its first character to its last.
pub open spec fn decode(text: Seq<char>) -> Option<StateView> {
    match state_at(text, 0) {
        Some((state, end)) => if end == text.len() {
            Some(state)
        } else {
            None
        },
        None => None,
    }
}

/// Writing a text character by character can stop and go on anywhere.
pub proof fn lemma_escape_push(v: Seq<char>, c: char)
    ensures
        escape(v.push(c)) == escape(v) + escape_char(c),
    decreases v.len(),
{
    if v.len() == 0 {
        assert(v.push(c).drop_first() =~= Seq::<char>::empty());
        assert(escape(v.push(c)) =~= escape_char(c) + escape(Seq::<char>::empty()));
        assert(escape(v.push(c)) =~= escape(v) + escape_char(c));
    } else {
        lemma_escape_push(v.drop_first(), c);
        assert(v.push(c).drop_first() =~= v.drop_first().push(c));
        assert(escape(v.push(c)) =~= escape(v) + escape_char(c));
    }
}

/// The character that writes `d` as a digit of base 16.
fn hex_digit(d: u8) -> (c: char)
    requires
        d < 16,
    ensures
        c == hex_char(d as nat),
{
    if d < 10 {
        (48u8 + d) as char
    } else {
        (87u8 + d) as char
    }
}

/// The letter that stands behind a backslash for `c`.
fn short_letter(c: char) -> (r: Option<char>)
    ensures
        r == short_escape(c),
{
    if c == '"' || c == '\\' {
        Some(c)
    } else if c == '\u{8}' {
        Some('b')
    } else if c == '\t' {
        Some('t')
    } else if c == '\n' {
        Some('n')
    } else if c == '\u{c}' {
        Some('f')
    } else if c == '\r' {
        Some('r')
    } else {
        None
    }
}

/// Appends `v` between quotes to `out`.
fn write_quoted(out: &mut String, v: &str)
    ensures
        final(out)@ == old(out)@ + quoted(v@),
{
    let chars = chars_of(v);
    out.push('"');
    let mut i: usize = 0;
    while i < chars.len()
        invariant
            i <= chars@.len(),
            out@ == old(out)@ + seq!['"'] + escape(chars@.take(i as int)),
        decreases chars@.len() - i,
    {
        let c = chars[i];
        let ghost before = out@;
        proof {
            lemma_escape_push(chars@.take(i as int), c);
            assert(chars@.take(i + 1) =~= chars@.take(i as int).push(c));
        }
        match short_letter(c) {
            Some(letter) => {
                out.push('\\');
                out.push(letter);
            },
            None => {
                if (c as u32) < 0x20 {
                    let code: u32 = c as u32;
                    out.push('\\');
                    out.push('u');
                    out.push('0');
                    out.push('0');
                    out.push(hex_digit((code / 16) as u8));
                    out.push(hex_digit((code % 16) as u8));
                } else {
                    out.push(c);
                }
            },
        }
        proof {
            assert(out@ =~= before + escape_char(c));
            assert(out@ =~= old(out)@ + seq!['"'] + escape(chars@.take(i + 1)));
        }
        i += 1;
    }
    out.push('"');
    proof {
        assert(chars@.take(chars@.len() as int) =~= chars@);
        assert(out@ =~= old(out)@ + quoted(v@));
    }
}

/// Appends the members of a group, as a list of texts, to `out`.
fn write_users(out: &mut String, users: &Vec<User>)
    ensures
        final(out)@ == old(out)@ + list_of(texts(users@).map_values(text_writer())),
{
    let ghost items = texts(users@).map_values(text_writer());
    out.push('[');
    let mut i: usize = 0;
    while i < users.len()
        invariant
            i <= users@.len(),
            items == texts(users@).map_values(text_writer()),
            out@ == old(out)@ + seq!['['] + joined(items.take(i as int), seq![',']),
        decreases users@.len() - i,
    {
        proof {
            assert(items.take(i + 1).drop_last() =~= items.take(i as int));
            assert(items.take(i + 1).last() == quoted(users@[i as int]@));
        }
        let ghost before = out@;
        if i > 0 {
            out.push(',');
        }
        write_quoted(out, users[i].as_str());
        proof {
            let item = quoted(users@[i as int]@);
            if i == 0 {
                assert(joined(items.take(0), seq![',']) =~= Seq::<char>::empty());
                assert(out@ =~= old(out)@ + seq!['['] + item);
            } else {
                assert(out@ =~= before + seq![','] + item);
                assert(out@ =~= old(out)@ + seq!['['] + (joined(items.take(i as int), seq![','])
                    + seq![','] + item));
            }
        }
        i += 1;
    }
    out.push(']');
    proof {
        assert(items.take(users@.len() as int) =~= items);
        assert(out@ =~= old(out)@ + list_of(items));
    }
}

/// Appends a group to `out`.
fn write_group(out: &mut String, g: &Group)
    ensures
        final(out)@ == old(out)@ + group_text(g@),
{
    out.append("{\"name\":");
    write_quoted(out, g.name());
    out.append(",\"users\":");
    write_users(out, g.users());
    out.push('}');
    proof {
        assert(out@ =~= old(out)@ + group_text(g@));
    }
}

/// Appends an instant to `out`.
fn write_timestamp(out: &mut String, t: Timestamp)
    ensures
        final(out)@ == old(out)@ + timestamp_text(t),
{
    out.append("{\"secs_since_epoch\":");
    let secs = decimal_text(t.secs);
    out.append(secs.as_str());
    out.append(",\"nanos_since_epoch\":");
    let nanos = decimal_text(t.nanos as u64);
    out.append(nanos.as_str());
    out.push('}');
    proof {
        assert(out@ =~= old(out)@ + timestamp_text(t));
    }
}

/// Appends a place and a time, as the fields that an object starts with, to
/// `out`.
fn write_place_and_time(out: &mut String, place: &str, time: &str)
    ensures
        final(out)@ == old(out)@ + place_and_time(place@, time@),
{
    out.append("{\"place\":");
    write_quoted(out, place);
    out.append(",\"time\":");
    write_quoted(out, time);
    proof {
        assert(out@ =~= old(out)@ + place_and_time(place@, time@));
    }
}

/// Appends the field of a meeting point to `out`.
fn write_meeting_field(out: &mut String, meet: Option<(&str, &str)>)
    ensures
        final(out)@ == old(out)@ + meeting_field(
            match meet {
                Some((p, t)) => Some((p@, t@)),
                None => None,
            },
        ),
{
    match meet {
        Some((place, time)) => {
            out.append(",\"meeting_point\":");
            write_place_and_time(out, place, time);
            out.push('}');
            proof {
                assert(out@ =~= old(out)@ + meeting_field(Some((place@, time@))));
            }
        },
        None => {
            proof {
                assert(out@ =~= old(out)@ + Seq::<char>::empty());
            }
        },
    }
}

/// What is appended to a text piece by piece is appended to it as a whole.
proof fn lemma_appended(start: Seq<char>, done: Seq<char>, piece: Seq<char>)
    ensures
        (start + done) + piece == start + (done + piece),
{
    assert((start + done) + piece =~= start + (done + piece));
}

/// Appends a proposal to `out`.
fn write_proposal(out: &mut String, p: &Proposal)
    ensures
        final(out)@ == old(out)@ + proposal_text(p@),
{
    let ghost start = out@;
    write_place_and_time(out, p.place(), p.time());
    let ghost d1 = place_and_time(p@.place, p@.time);
    out.append(",\"group\":");
    let ghost d2 = d1 + ",\"group\":"@;
    proof {
        lemma_appended(start, d1, ",\"group\":"@);
    }
    match p.group() {
        Some(g) => write_quoted(out, g),
        None => out.append("null"),
    }
    let ghost d3 = d2 + quoted_or_null(p@.group);
    proof {
        lemma_appended(start, d2, quoted_or_null(p@.group));
    }
    out.append(",\"created\":");
    let ghost d4 = d3 + ",\"created\":"@;
    proof {
        lemma_appended(start, d3, ",\"created\":"@);
    }
    write_timestamp(out, p.created());
    let ghost d5 = d4 + timestamp_text(p@.created);
    proof {
        lemma_appended(start, d4, timestamp_text(p@.created));
    }
    write_meeting_field(out, p.meeting_point());
    let ghost d6 = d5 + meeting_field(p@.meeting_point);
    proof {
        lemma_appended(start, d5, meeting_field(p@.meeting_point));
    }
    out.push('}');
    proof {
        assert(out@ == (start + d6).push('}'));
        assert((start + d6).push('}') =~= start + (d6 + seq!['}']));
    }
}

/// Appends the groups, as a list, to `out`.
fn write_groups(out: &mut String, groups: &Vec<Group>)
    ensures
        final(out)@ == old(out)@ + list_of(group_views(groups@).map_values(group_writer())),
{
    let ghost items = group_views(groups@).map_values(group_writer());
    out.push('[');
    let mut i: usize = 0;
    while i < groups.len()
        invariant
            i <= groups@.len(),
            items == group_views(groups@).map_values(group_writer()),
            out@ == old(out)@ + seq!['['] + joined(items.take(i as int), seq![',']),
        decreases groups@.len() - i,
    {
        proof {
            assert(items.take(i + 1).drop_last() =~= items.take(i as int));
            assert(items.take(i + 1).last() == group_text(groups@[i as int]@));
        }
        let ghost before = out@;
        if i > 0 {
            out.push(',');
        }
        write_group(out, &groups[i]);
        proof {
            let item = group_text(groups@[i as int]@);
            if i == 0 {
                assert(joined(items.take(0), seq![',']) =~= Seq::<char>::empty());
                assert(out@ =~= old(out)@ + seq!['['] + item);
            } else {
                assert(out@ =~= before + seq![','] + item);
                assert(out@ =~= old(out)@ + seq!['['] + (joined(items.take(i as int), seq![','])
                    + seq![','] + item));
            }
        }
        i += 1;
    }
    out.push(']');
    proof {
        assert(items.take(groups@.len() as int) =~= items);
        assert(out@ =~= old(out)@ + list_of(items));
    }
}

/// Appends the proposals, as a list, to `out`.
fn write_proposals(out: &mut String, proposals: &Vec<Proposal>)
    ensures
        final(out)@ == old(out)@ + list_of(
            proposal_views(proposals@).map_values(proposal_writer()),
        ),
{
    let ghost items = proposal_views(proposals@).map_values(proposal_writer());
    out.push('[');
    let mut i: usize = 0;
    while i < proposals.len()
        invariant
            i <= proposals@.len(),
            items == proposal_views(proposals@).map_values(proposal_writer()),
            out@ == old(out)@ + seq!['['] + joined(items.take(i as int), seq![',']),
        decreases proposals@.len() - i,
    {
        proof {
            assert(items.take(i + 1).drop_last() =~= items.take(i as int));
            assert(items.take(i + 1).last() == proposal_text(proposals@[i as int]@));
        }
        let ghost before = out@;
        if i > 0 {
            out.push(',');
        }
        write_proposal(out, &proposals[i]);
        proof {
            let item = proposal_text(proposals@[i as int]@);
            if i == 0 {
                assert(joined(items.take(0), seq![',']) =~= Seq::<char>::empty());
                assert(out@ =~= old(out)@ + seq!['['] + item);
            } else {
                assert(out@ =~= before + seq![','] + item);
                assert(out@ =~= old(out)@ + seq!['['] + (joined(items.take(i as int), seq![','])
                    + seq![','] + item));
            }
        }
        i += 1;
    }
    out.push(']');
    proof {
        assert(items.take(proposals@.len() as int) =~= items);
        assert(out@ =~= old(out)@ + list_of(items));
    }
}

/// Matches the character `c` at `i`.
fn expect_char(chars: &Vec<char>, i: usize, c: char) -> (r: Option<usize>)
    requires
        i <= chars@.len(),
    ensures
        match r {
            Some(j) => j == i + 1 && j <= chars@.len() && chars@[i as int] == c && lit_end(
                chars@,
                i as int,
                seq![c],
            ) == Some(j as int),
            None => lit_end(chars@, i as int, seq![c]) is None,
        },
{
    if i < chars.len() && chars[i] == c {
        proof {
            assert(chars@.subrange(i as int, i + 1) =~= seq![c]);
        }
        Some(i + 1)
    } else {
        proof {
            if i < chars@.len() {
                assert(chars@.subrange(i as int, i + 1)[0] == chars@[i as int]);
            }
        }
        None
    }
}

/// The digit of base 16 that `c` writes.
fn hex_digit_value(c: char) -> (r: Option<u8>)
    ensures
        match r {
            Some(d) => d < 16 && hex_value(c) == Some(d as nat),
            None => hex_value(c) is None,
        },
{
    if '0' <= c && c <= '9' {
        Some(c as u8 - 48u8)
    } else if 'a' <= c && c <= 'f' {
        Some(c as u8 - 87u8)
    } else {
        None
    }
}

/// The character that a backslash and `letter` stand for.
fn short_letter_value(letter: char) -> (r: Option<char>)
    ensures
        r == short_escaped(letter),
{
    if letter == '"' || letter == '\\' {
        Some(letter)
    } else if letter == 'b' {
        Some('\u{8}')
    } else if letter == 't' {
        Some('\t')
    } else if letter == 'n' {
        Some('\n')
    } else if letter == 'f' {
        Some('\u{c}')
    } else if letter == 'r' {
        Some('\r')
    } else {
        None
    }
}

/// Reads the character that is written at `i` inside quotes.
fn read_char(chars: &Vec<char>, i: usize) -> (r: Option<(char, usize)>)
    requires
        i <= chars@.len(),
    ensures
        match r {
            Some((c, j)) => i < j <= chars@.len() && unescape_char(chars@, i as int) == Some(
                (c, j as int),
            ),
            None => unescape_char(chars@, i as int) is None,
        },
{
    let n = chars.len();
    if i >= n {
        return None;
    }
    let c = chars[i];
    if c == '\\' {
        if n - i > 1 {
            if let Some(plain) = short_letter_value(chars[i + 1]) {
                return Some((plain, i + 2));
            }
        }
        if n - i > 5 && chars[i + 1] == 'u' && chars[i + 2] == '0' && chars[i + 3] == '0' && (
        chars[i + 4] == '0' || chars[i + 4] == '1') {
            let high: u8 = chars[i + 4] as u8 - 48u8;
            match hex_digit_value(chars[i + 5]) {
                Some(low) => {
                    return Some(((high * 16 + low) as char, i + 6));
                },
                None => {
                    return None;
                },
            }
        }
        None
    } else if c == '"' || (c as u32) < 0x20 {
        None
    } else {
        Some((c, i + 1))
    }
}

/// Reads the text between quotes at `i`.
fn read_text(chars: &Vec<char>, i: usize) -> (r: Option<(String, usize)>)
    requires
        i <= chars@.len(),
    ensures
        match r {
            Some((v, j)) => i < j <= chars@.len() && text_at(chars@, i as int) == Some(
                (v@, j as int),
            ),
            None => text_at(chars@, i as int) is None,
        },
{
    if i >= chars.len() || chars[i] != '"' {
        return None;
    }
    let mut out = String::new();
    let mut at: usize = i + 1;
    loop
        invariant
            i < at <= chars@.len(),
            chars@[i as int] == '"',
            unescape(chars@, i + 1, Seq::empty()) == unescape(chars@, at as int, out@),
        decreases chars@.len() - at,
    {
        if at < chars.len() && chars[at] == '"' {
            return Some((out, at + 1));
        }
        match read_char(chars, at) {
            Some((c, j)) => {
                out.push(c);
                at = j;
            },
            None => {
                return None;
            },
        }
    }
}

/// Reads the text between quotes at `i`, or `null`.
fn read_text_or_null(chars: &Vec<char>, i: usize) -> (r: Option<(Option<String>, usize)>)
    requires
        i <= chars@.len(),
    ensures
        match r {
            Some((v, j)) => i < j <= chars@.len() && text_or_null_at(chars@, i as int) == Some(
                (
                    match v {
                        Some(t) => Some(t@),
                        None => None,
                    },
                    j as int,
                ),
            ),
            None => text_or_null_at(chars@, i as int) is None,
        },
{
    proof {
        // The word is not empty: reading it gets somewhere.
        reveal_strlit("null");
    }
    match expect(chars, i, "null") {
        Some(j) => Some((None, j)),
        None => match read_text(chars, i) {
            Some((t, j)) => Some((Some(t), j)),
            None => None,
        },
    }
}

/// Reads the number up to `max` at `i`.
fn read_number(chars: &Vec<char>, i: usize, max: u64) -> (r: Option<(u64, usize)>)
    requires
        i <= chars@.len(),
    ensures
        match r {
            Some((n, j)) => i < j <= chars@.len() && n <= max && number_at(
                chars@,
                i as int,
                max as nat,
            ) == Some((n as nat, j as int)),
            None => number_at(chars@, i as int, max as nat) is None,
        },
{
    let j = scan(chars, Class::Digit, i);
    if j == i {
        return None;
    }
    proof {
        lemma_run(chars@, Class::Digit, i as int);
    }
    match number(chars, i, j) {
        Some(n) => if n <= max {
            Some((n, j))
        } else {
            None
        },
        None => None,
    }
}

/// Reads the list of texts at `i`.
fn read_users(chars: &Vec<char>, i: usize) -> (r: Option<(Vec<User>, usize)>)
    requires
        i <= chars@.len(),
    ensures
        match r {
            Some((v, j)) => i < j <= chars@.len() && list_at(chars@, i as int, text_reader())
                == Some((texts(v@), j as int)),
            None => list_at(chars@, i as int, text_reader()) is None,
        },
{
    if i >= chars.len() || chars[i] != '[' {
        return None;
    }
    let mut out: Vec<User> = Vec::new();
    if chars.len() - i > 1 && chars[i + 1] == ']' {
        proof {
            assert(texts(out@) =~= Seq::empty());
        }
        return Some((out, i + 2));
    }
    let mut at: usize = i + 1;
    proof {
        assert(texts(out@) =~= Seq::empty());
    }
    loop
        invariant
            i < at <= chars@.len(),
            chars@[i as int] == '[',
            !(i + 1 < chars@.len() && chars@[i + 1] == ']'),
            items_at(chars@, i + 1, text_reader(), Seq::empty()) == items_at(
                chars@,
                at as int,
                text_reader(),
                texts(out@),
            ),
        decreases chars@.len() - at,
    {
        let ghost before = texts(out@);
        match read_text(chars, at) {
            Some((v, j)) => {
                if j >= chars.len() {
                    return None;
                }
                let c = chars[j];
                if c != ']' && c != ',' {
                    return None;
                }
                out.push(v);
                proof {
                    assert(texts(out@) =~= before.push(v@));
                }
                if c == ']' {
                    return Some((out, j + 1));
                }
                at = j + 1;
            },
            None => {
                return None;
            },
        }
    }
}

/// Reads the group at `i`.
fn read_group(chars: &Vec<char>, i: usize) -> (r: Option<(Group, usize)>)
    requires
        i <= chars@.len(),
    ensures
        match r {
            Some((v, j)) => i < j <= chars@.len() && group_at(chars@, i as int) == Some(
                (v@, j as int),
            ),
            None => group_at(chars@, i as int) is None,
        },
{
    let a = match expect(chars, i, "{\"name\":") {
        Some(a) => a,
        None => { return None; },
    };
    let (name, b) = match read_text(chars, a) {
        Some(r) => r,
        None => { return None; },
    };
    let c = match expect(chars, b, ",\"users\":") {
        Some(c) => c,
        None => { return None; },
    };
    let (users, d) = match read_users(chars, c) {
        Some(r) => r,
        None => { return None; },
    };
    match expect_char(chars, d, '}') {
        Some(e) => Some((Group::from_parts(name, users), e)),
        None => None,
    }
}

/// Reads the instant at `i`.
fn read_timestamp(chars: &Vec<char>, i: usize) -> (r: Option<(Timestamp, usize)>)
    requires
        i <= chars@.len(),
    ensures
        match r {
            Some((v, j)) => i < j <= chars@.len() && timestamp_at(chars@, i as int) == Some(
                (v, j as int),
            ),
            None => timestamp_at(chars@, i as int) is None,
        },
{
    let a = match expect(chars, i, "{\"secs_since_epoch\":") {
        Some(a) => a,
        None => { return None; },
    };
    let (secs, b) = match read_number(chars, a, 0xffff_ffff_ffff_ffff) {
        Some(r) => r,
        None => { return None; },
    };
    let c = match expect(chars, b, ",\"nanos_since_epoch\":") {
        Some(c) => c,
        None => { return None; },
    };
    let (nanos, d) = match read_number(chars, c, 0xffff_ffff) {
        Some(r) => r,
        None => { return None; },
    };
    match expect_char(chars, d, '}') {
        Some(e) => Some((Timestamp { secs, nanos: nanos as u32 }, e)),
        None => None,
    }
}

/// Reads the place and the time that the object at `i` starts with.
fn read_place_and_time(chars: &Vec<char>, i: usize) -> (r: Option<(String, String, usize)>)
    requires
        i <= chars@.len(),
    ensures
        match r {
            Some((place, time, j)) => i < j <= chars@.len() && place_and_time_at(
                chars@,
                i as int,
            ) == Some((place@, time@, j as int)),
            None => place_and_time_at(chars@, i as int) is None,
        },
{
    let a = match expect(chars, i, "{\"place\":") {
        Some(a) => a,
        None => { return None; },
    };
    let (place, b) = match read_text(chars, a) {
        Some(r) => r,
        None => { return None; },
    };
    let c = match expect(chars, b, ",\"time\":") {
        Some(c) => c,
        None => { return None; },
    };
    match read_text(chars, c) {
        Some((time, d)) => Some((place, time, d)),
        None => None,
    }
}

/// Reads the field of a meeting point at `i`, where one starts there.
fn read_meeting_field(chars: &Vec<char>, i: usize) -> (r: Option<
    (Option<(String, String)>, usize),
>)
    requires
        i <= chars@.len(),
    ensures
        match r {
            Some((v, j)) => i <= j <= chars@.len() && meeting_field_at(chars@, i as int) == Some(
                (
                    match v {
                        Some((p, t)) => Some((p@, t@)),
                        None => None,
                    },
                    j as int,
                ),
            ),
            None => meeting_field_at(chars@, i as int) is None,
        },
{
    let a = match expect(chars, i, ",\"meeting_point\":") {
        Some(a) => a,
        None => { return Some((None, i)); },
    };
    let (place, time, b) = match read_place_and_time(chars, a) {
        Some(r) => r,
        None => { return None; },
    };
    match expect_char(chars, b, '}') {
        Some(c) => Some((Some((place, time)), c)),
        None => None,
    }
}

/// Reads the group of a proposal and the instant at which it was made.
fn read_group_and_created(chars: &Vec<char>, i: usize) -> (r: Option<
    (Option<String>, Timestamp, usize),
>)
    requires
        i <= chars@.len(),
    ensures
        match r {
            Some((group, created, j)) => i < j <= chars@.len() && group_and_created_at(
                chars@,
                i as int,
            ) == Some(
                (
                    match group {
                        Some(g) => Some(g@),
                        None => None,
                    },
                    created,
                    j as int,
                ),
            ),
            None => group_and_created_at(chars@, i as int) is None,
        },
{
    let a = match expect(chars, i, ",\"group\":") {
        Some(a) => a,
        None => { return None; },
    };
    let (group, b) = match read_text_or_null(chars, a) {
        Some(r) => r,
        None => { return None; },
    };
    let c = match expect(chars, b, ",\"created\":") {
        Some(c) => c,
        None => { return None; },
    };
    match read_timestamp(chars, c) {
        Some((created, d)) => Some((group, created, d)),
        None => None,
    }
}

/// Reads the proposal at `i`.
fn read_proposal(chars: &Vec<char>, i: usize) -> (r: Option<(Proposal, usize)>)
    requires
        i <= chars@.len(),
    ensures
        match r {
            Some((v, j)) => i < j <= chars@.len() && proposal_at(chars@, i as int) == Some(
                (v@, j as int),
            ),
            None => proposal_at(chars@, i as int) is None,
        },
{
    let (place, time, a) = match read_place_and_time(chars, i) {
        Some(r) => r,
        None => { return None; },
    };
    let (group, created, b) = match read_group_and_created(chars, a) {
        Some(r) => r,
        None => { return None; },
    };
    let (meet, c) = match read_meeting_field(chars, b) {
        Some(r) => r,
        None => { return None; },
    };
    match expect_char(chars, c, '}') {
        Some(d) => Some((Proposal::from_parts(place, time, group, meet, created), d)),
        None => None,
    }
}

/// Reads the list of groups at `i`.
fn read_groups(chars: &Vec<char>, i: usize) -> (r: Option<(Vec<Group>, usize)>)
    requires
        i <= chars@.len(),
    ensures
        match r {
            Some((v, j)) => i < j <= chars@.len() && list_at(chars@, i as int, group_reader())
                == Some((group_views(v@), j as int)),
            None => list_at(chars@, i as int, group_reader()) is None,
        },
{
    if i >= chars.len() || chars[i] != '[' {
        return None;
    }
    let mut out: Vec<Group> = Vec::new();
    if chars.len() - i > 1 && chars[i + 1] == ']' {
        proof {
            assert(group_views(out@) =~= Seq::empty());
        }
        return Some((out, i + 2));
    }
    let mut at: usize = i + 1;
    proof {
        assert(group_views(out@) =~= Seq::empty());
    }
    loop
        invariant
            i < at <= chars@.len(),
            chars@[i as int] == '[',
            !(i + 1 < chars@.len() && chars@[i + 1] == ']'),
            items_at(chars@, i + 1, group_reader(), Seq::empty()) == items_at(
                chars@,
                at as int,
                group_reader(),
                group_views(out@),
            ),
        decreases chars@.len() - at,
    {
        let ghost before = group_views(out@);
        match read_group(chars, at) {
            Some((v, j)) => {
                if j >= chars.len() {
                    return None;
                }
                let c = chars[j];
                if c != ']' && c != ',' {
                    return None;
                }
                let ghost item = v@;
                out.push(v);
                proof {
                    assert(group_views(out@) =~= before.push(item));
                }
                if c == ']' {
                    return Some((out, j + 1));
                }
                at = j + 1;
            },
            None => {
                return None;
            },
        }
    }
}

/// Reads the list of proposals at `i`.
fn read_proposals(chars: &Vec<char>, i: usize) -> (r: Option<(Vec<Proposal>, usize)>)
    requires
        i <= chars@.len(),
    ensures
        match r {
            Some((v, j)) => i < j <= chars@.len() && list_at(
                chars@,
                i as int,
                proposal_reader(),
            ) == Some((proposal_views(v@), j as int)),
            None => list_at(chars@, i as int, proposal_reader()) is None,
        },
{
    if i >= chars.len() || chars[i] != '[' {
        return None;
    }
    let mut out: Vec<Proposal> = Vec::new();
    if chars.len() - i > 1 && chars[i + 1] == ']' {
        proof {
            assert(proposal_views(out@) =~= Seq::empty());
        }
        return Some((out, i + 2));
    }
    let mut at: usize = i + 1;
    proof {
        assert(proposal_views(out@) =~= Seq::empty());
    }
    loop
        invariant
            i < at <= chars@.len(),
            chars@[i as int] == '[',
            !(i + 1 < chars@.len() && chars@[i + 1] == ']'),
            items_at(chars@, i + 1, proposal_reader(), Seq::empty()) == items_at(
                chars@,
                at as int,
                proposal_reader(),
                proposal_views(out@),
            ),
        decreases chars@.len() - at,
    {
        let ghost before = proposal_views(out@);
        match read_proposal(chars, at) {
            Some((v, j)) => {
                if j >= chars.len() {
                    return None;
                }
                let c = chars[j];
                if c != ']' && c != ',' {
                    return None;
                }
                let ghost item = v@;
                out.push(v);
                proof {
                    assert(proposal_views(out@) =~= before.push(item));
                }
                if c == ']' {
                    return Some((out, j + 1));
                }
                at = j + 1;
            },
            None => {
                return None;
            },
        }
    }
}

/// Reads the state at `i`.
fn read_state(chars: &Vec<char>, i: usize) -> (r: Option<(LunchBotState, usize)>)
    requires
        i <= chars@.len(),
    ensures
        match r {
            Some((v, j)) => i < j <= chars@.len() && state_at(chars@, i as int) == Some(
                (v@, j as int),
            ),
            None => state_at(chars@, i as int) is None,
        },
{
    let a0 = match expect(chars, i, "{\"groups\":") {
        Some(a) => a,
        None => { return None; },
    };
    let (groups, a1) = match read_groups(chars, a0) {
        Some(r) => r,
        None => { return None; },
    };
    let a2 = match expect(chars, a1, ",\"proposals\":") {
        Some(c) => c,
        None => { return None; },
    };
    let (proposals, a) = match read_proposals(chars, a2) {
        Some(r) => r,
        None => { return None; },
    };
    assert(state_head_at(chars@, i as int) == Some(
        (group_views(groups@), proposal_views(proposals@), a as int),
    ));
    let b = match expect(chars, a, ",\"store\":") {
        Some(b) => b,
        None => { return None; },
    };
    let (store, c) = match read_number(chars, b, 0xffff_ffff) {
        Some(r) => r,
        None => { return None; },
    };
    let d = match expect(chars, c, ",\"channel\":") {
        Some(d) => d,
        None => { return None; },
    };
    let (channel, e) = match read_text(chars, d) {
        Some(r) => r,
        None => { return None; },
    };
    match expect_char(chars, e, '}') {
        Some(f) => Some((LunchBotState::from_parts(groups, proposals, store as u32, channel), f)),
        None => None,
    }
}

impl LunchBotState {
    /// The state as text.
    pub fn serialize(&self) -> (out: String)
        ensures
            out@ == encode(self@),
    {
        let mut out = String::new();
        out.append("{\"groups\":");
        write_groups(&mut out, self.groups());
        out.append(",\"proposals\":");
        write_proposals(&mut out, self.proposals());
        out.append(",\"store\":");
        let store = decimal_text(self.store() as u64);
        out.append(store.as_str());
        out.append(",\"channel\":");
        write_quoted(&mut out, self.channel());
        out.push('}');
        proof {
            assert(out@ =~= encode(self@));
        }
        out
    }

    /// The state that `text` holds, where it holds one.
    pub fn deserialize(text: &str) -> (r: Option<LunchBotState>)
        ensures
            match r {
                Some(state) => decode(text@) == Some(state@),
                None => decode(text@) is None,
            },
    {
        let chars = chars_of(text);
        match read_state(&chars, 0) {
            Some((state, end)) => if end == chars.len() {
                Some(state)
            } else {
                None
            },
            None => None,
        }
    }
}

} // verus!
