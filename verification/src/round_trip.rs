//! That what is written is read back: `decode` undoes `encode`.
use crate::clock::Timestamp;
use crate::encoding::{
    decode, encode, escape, escape_char, group_and_created_at, group_at, group_reader, group_text,
    group_writer, hex_char, hex_value, items_at, list_at, list_of, meeting_field,
    meeting_field_at, number_at, place_and_time, place_and_time_at, proposal_at, proposal_reader,
    proposal_text, proposal_writer, quoted, quoted_or_null, short_escape, short_escaped, state_at,
    state_head_at, text_at, text_or_null_at, text_reader, text_writer, timestamp_at,
    timestamp_text, unescape, unescape_char,
};
use crate::state::{GroupView, ProposalView, StateView};
use crate::syntax::{in_class, lit_end, run_end, Class};
use crate::text::{decimal, digit_value, is_digit, joined, lemma_decimal};
use vstd::prelude::*;

verus! {

/// Whether `piece` stands in `s` at `i`.
pub open spec fn holds(s: Seq<char>, i: int, piece: Seq<char>) -> bool {
    lit_end(s, i, piece) == Some(i + piece.len())
}

/// Whether `read` finds `v` wherever `write` has written it, and finds where
/// what was written ends.
pub open spec fn reads_back<T>(
    read: spec_fn(Seq<char>, int) -> Option<(T, int)>,
    write: spec_fn(T) -> Seq<char>,
    v: T,
) -> bool {
    forall|s: Seq<char>, i: int|
        holds(s, i, write(v)) ==> #[trigger] read(s, i) == Some((v, i + write(v).len()))
}

/// Where two pieces stand one after the other, each of them stands.
pub proof fn lemma_split(s: Seq<char>, i: int, a: Seq<char>, b: Seq<char>)
    requires
        holds(s, i, a + b),
    ensures
        holds(s, i, a),
        holds(s, i + a.len(), b),
{
    let whole = s.subrange(i, i + (a + b).len());
    assert(s.subrange(i, i + a.len()) =~= whole.subrange(0, a.len() as int));
    assert(whole.subrange(0, a.len() as int) =~= a);
    assert(s.subrange(i + a.len(), i + a.len() + b.len()) =~= whole.subrange(
        a.len() as int,
        (a + b).len() as int,
    ));
    assert(whole.subrange(a.len() as int, (a + b).len() as int) =~= b);
}

/// The characters of a piece that stands in a text.
pub proof fn lemma_holds_index(s: Seq<char>, i: int, piece: Seq<char>, k: int)
    requires
        holds(s, i, piece),
        0 <= k < piece.len(),
    ensures
        s[i + k] == piece[k],
{
    assert(s.subrange(i, i + piece.len())[k] == s[i + k]);
}

/// A character is read back from what writes it, and what writes it never
/// starts with a quote.
pub proof fn lemma_char(s: Seq<char>, i: int, c: char)
    requires
        holds(s, i, escape_char(c)),
    ensures
        unescape_char(s, i) == Some((c, i + escape_char(c).len())),
        escape_char(c).len() > 0,
        s[i] != '"',
{
    let e = escape_char(c);
    lemma_holds_index(s, i, e, 0);
    if short_escape(c) is Some {
        lemma_holds_index(s, i, e, 1);
        assert(short_escaped(short_escape(c)->0) == Some(c));
    } else if (c as u32) < 0x20 {
        lemma_holds_index(s, i, e, 1);
        lemma_holds_index(s, i, e, 2);
        lemma_holds_index(s, i, e, 3);
        lemma_holds_index(s, i, e, 4);
        lemma_holds_index(s, i, e, 5);
        let high = (c as u32 / 16) as nat;
        let low = (c as u32 % 16) as nat;
        assert(high == 0 || high == 1);
        assert(hex_char(high) == if high == 0 {
            '0'
        } else {
            '1'
        });
        assert(short_escaped('u') is None);
        assert(digit_value(hex_char(high)) == high);
        assert(hex_value(hex_char(low)) == Some(low));
        assert(((high * 16 + low) as u8) as char == c);
    } else {
    }
}

/// A text is read back from between its quotes.
pub proof fn lemma_unescape(s: Seq<char>, i: int, v: Seq<char>, acc: Seq<char>)
    requires
        holds(s, i, escape(v) + seq!['"']),
    ensures
        unescape(s, i, acc) == Some((acc + v, i + escape(v).len() + 1)),
    decreases v.len(),
{
    if v.len() == 0 {
        lemma_holds_index(s, i, escape(v) + seq!['"'], 0);
        assert(acc + v =~= acc);
    } else {
        let head = escape_char(v[0]);
        let rest = escape(v.drop_first());
        assert(escape(v) + seq!['"'] =~= head + (rest + seq!['"']));
        lemma_split(s, i, head, rest + seq!['"']);
        lemma_char(s, i, v[0]);
        lemma_unescape(s, i + head.len(), v.drop_first(), acc.push(v[0]));
        assert(acc.push(v[0]) + v.drop_first() =~= acc + v);
    }
}

/// A text between quotes is read back.
pub proof fn lemma_text(s: Seq<char>, i: int, v: Seq<char>)
    requires
        holds(s, i, quoted(v)),
    ensures
        text_at(s, i) == Some((v, i + quoted(v).len())),
        quoted(v).len() > 0,
        quoted(v)[0] == '"',
{
    assert(quoted(v) =~= seq!['"'] + (escape(v) + seq!['"']));
    lemma_split(s, i, seq!['"'], escape(v) + seq!['"']);
    lemma_holds_index(s, i, seq!['"'], 0);
    lemma_unescape(s, i + 1, v, Seq::empty());
    assert(Seq::<char>::empty() + v =~= v);
}

/// Texts are read back wherever they are written.
pub proof fn lemma_text_reads_back(v: Seq<char>)
    ensures
        reads_back(text_reader(), text_writer(), v),
        text_writer()(v).len() > 0,
        text_writer()(v)[0] == '"',
{
    assert forall|s: Seq<char>, i: int| holds(s, i, text_writer()(v)) implies #[trigger]
        text_reader()(s, i) == Some((v, i + text_writer()(v).len())) by {
        lemma_text(s, i, v);
    }
    assert(quoted(v) =~= seq!['"'] + (escape(v) + seq!['"']));
}

/// A text or `null` is read back.
pub proof fn lemma_text_or_null(s: Seq<char>, i: int, v: Option<Seq<char>>)
    requires
        holds(s, i, quoted_or_null(v)),
    ensures
        text_or_null_at(s, i) == Some((v, i + quoted_or_null(v).len())),
{
    reveal_strlit("null");
    match v {
        Some(t) => {
            lemma_text(s, i, t);
            lemma_holds_index(s, i, quoted(t), 0);
            if lit_end(s, i, "null"@) is Some {
                lemma_holds_index(s, i, "null"@, 0);
            }
        },
        None => {},
    }
}

/// A run of characters of one class ends where the first other character
/// stands.
pub proof fn lemma_run_end(s: Seq<char>, k: Class, i: int, j: int)
    requires
        0 <= i <= j <= s.len(),
        forall|m: int| i <= m < j ==> in_class(k, #[trigger] s[m]),
        j == s.len() || !in_class(k, s[j]),
    ensures
        run_end(s, k, i) == j,
    decreases j - i,
{
    if i < j {
        lemma_run_end(s, k, i + 1, j);
    }
}

/// A number is read back where no digit follows it.
pub proof fn lemma_number(s: Seq<char>, i: int, n: nat, max: nat)
    requires
        holds(s, i, decimal(n)),
        n <= max,
        i + decimal(n).len() == s.len() || !is_digit(s[i + decimal(n).len()]),
    ensures
        number_at(s, i, max) == Some((n, i + decimal(n).len())),
{
    lemma_decimal(n);
    let j = i + decimal(n).len();
    assert forall|m: int| i <= m < j implies in_class(Class::Digit, #[trigger] s[m]) by {
        lemma_holds_index(s, i, decimal(n), m - i);
        assert(is_digit(decimal(n)[m - i]));
    }
    lemma_run_end(s, Class::Digit, i, j);
}

/// The items of a list, written with their separators, start with the first
/// item.
pub proof fn lemma_joined_front(items: Seq<Seq<char>>, sep: Seq<char>)
    requires
        items.len() >= 2,
    ensures
        joined(items, sep) == items[0] + sep + joined(items.drop_first(), sep),
    decreases items.len(),
{
    if items.len() == 2 {
        assert(items.drop_last() =~= seq![items[0]]);
        assert(items.drop_first() =~= seq![items[1]]);
        assert(joined(items.drop_last(), sep) == items[0]);
        assert(joined(items.drop_first(), sep) == items[1]);
    } else {
        lemma_joined_front(items.drop_last(), sep);
        assert(items.drop_last().drop_first() =~= items.drop_first().drop_last());
        assert(items.drop_last()[0] == items[0]);
        assert(items.drop_first().last() == items.last());
        assert(joined(items, sep) =~= items[0] + sep + joined(items.drop_first(), sep));
    }
}

/// The items of a list are read back, given that each of them is.
pub proof fn lemma_items<T>(
    s: Seq<char>,
    i: int,
    read: spec_fn(Seq<char>, int) -> Option<(T, int)>,
    write: spec_fn(T) -> Seq<char>,
    vs: Seq<T>,
    acc: Seq<T>,
)
    requires
        vs.len() > 0,
        holds(s, i, joined(vs.map_values(write), seq![',']) + seq![']']),
        forall|k: int| 0 <= k < vs.len() ==> reads_back(read, write, #[trigger] vs[k]),
        forall|k: int| 0 <= k < vs.len() ==> write(#[trigger] vs[k]).len() > 0,
    ensures
        items_at(s, i, read, acc) == Some(
            (acc + vs, i + joined(vs.map_values(write), seq![',']).len() + 1),
        ),
    decreases vs.len(),
{
    let items = vs.map_values(write);
    let first = write(vs[0]);
    assert(items[0] == first);
    assert(reads_back(read, write, vs[0]));
    if vs.len() == 1 {
        assert(joined(items, seq![',']) == first);
        lemma_split(s, i, first, seq![']']);
        lemma_holds_index(s, i + first.len(), seq![']'], 0);
        assert(read(s, i) == Some((vs[0], i + first.len())));
        assert(acc.push(vs[0]) =~= acc + vs);
    } else {
        let rest = vs.drop_first();
        lemma_joined_front(items, seq![',']);
        assert(items.drop_first() =~= rest.map_values(write));
        let tail = joined(rest.map_values(write), seq![',']) + seq![']'];
        assert(joined(items, seq![',']) + seq![']'] =~= first + (seq![','] + tail));
        lemma_split(s, i, first, seq![','] + tail);
        lemma_split(s, i + first.len(), seq![','], tail);
        lemma_holds_index(s, i + first.len(), seq![','], 0);
        assert(read(s, i) == Some((vs[0], i + first.len())));
        assert forall|k: int| 0 <= k < rest.len() implies reads_back(
            read,
            write,
            #[trigger] rest[k],
        ) by {
            assert(rest[k] == vs[k + 1]);
        }
        assert forall|k: int| 0 <= k < rest.len() implies write(#[trigger] rest[k]).len()
            > 0 by {
            assert(rest[k] == vs[k + 1]);
        }
        lemma_items(s, i + first.len() + 1, read, write, rest, acc.push(vs[0]));
        assert(acc.push(vs[0]) + rest =~= acc + vs);
    }
}

/// A list is read back, given that each of its items is and that none of them
/// is written with a closing bracket in front.
pub proof fn lemma_list<T>(
    s: Seq<char>,
    i: int,
    read: spec_fn(Seq<char>, int) -> Option<(T, int)>,
    write: spec_fn(T) -> Seq<char>,
    vs: Seq<T>,
)
    requires
        holds(s, i, list_of(vs.map_values(write))),
        forall|k: int| 0 <= k < vs.len() ==> reads_back(read, write, #[trigger] vs[k]),
        forall|k: int|
            0 <= k < vs.len() ==> write(#[trigger] vs[k]).len() > 0 && write(vs[k])[0] != ']',
    ensures
        list_at(s, i, read) == Some((vs, i + list_of(vs.map_values(write)).len())),
{
    let items = vs.map_values(write);
    let body = joined(items, seq![',']);
    assert(list_of(items) =~= seq!['['] + (body + seq![']']));
    lemma_split(s, i, seq!['['], body + seq![']']);
    lemma_holds_index(s, i, seq!['['], 0);
    if vs.len() == 0 {
        assert(body =~= Seq::<char>::empty());
        lemma_holds_index(s, i + 1, body + seq![']'], 0);
        assert(vs =~= Seq::<T>::empty());
    } else {
        lemma_items(s, i + 1, read, write, vs, Seq::empty());
        assert(Seq::<T>::empty() + vs =~= vs);
        // The list is not empty: its first item does not start with a bracket.
        lemma_first_of_joined(items, seq![',']);
        lemma_holds_index(s, i + 1, body + seq![']'], 0);
        assert(items[0] == write(vs[0]));
    }
}

/// What is written for a list that is not empty starts as its first item
/// does.
pub proof fn lemma_first_of_joined(items: Seq<Seq<char>>, sep: Seq<char>)
    requires
        items.len() > 0,
        items[0].len() > 0,
    ensures
        joined(items, sep).len() > 0,
        joined(items, sep)[0] == items[0][0],
    decreases items.len(),
{
    if items.len() > 1 {
        lemma_first_of_joined(items.drop_last(), sep);
    }
}

/// A group is read back.
pub proof fn lemma_group(s: Seq<char>, i: int, g: GroupView)
    requires
        holds(s, i, group_text(g)),
    ensures
        group_at(s, i) == Some((g, i + group_text(g).len())),
{
    let a = "{\"name\":"@;
    let b = quoted(g.name);
    let c = ",\"users\":"@;
    let d = list_of(g.users.map_values(text_writer()));
    let e = seq!['}'];
    lemma_split(s, i, a + b + c + d, e);
    lemma_split(s, i, a + b + c, d);
    lemma_split(s, i, a + b, c);
    lemma_split(s, i, a, b);
    lemma_text(s, i + a.len(), g.name);
    assert forall|k: int| 0 <= k < g.users.len() implies reads_back(
        text_reader(),
        text_writer(),
        #[trigger] g.users[k],
    ) && text_writer()(g.users[k]).len() > 0 && text_writer()(g.users[k])[0] != ']' by {
        lemma_text_reads_back(g.users[k]);
    }
    lemma_list(s, i + a.len() + b.len() + c.len(), text_reader(), text_writer(), g.users);
}

/// Groups are read back wherever they are written, and what is written for
/// one starts with a brace.
pub proof fn lemma_group_reads_back(g: GroupView)
    ensures
        reads_back(group_reader(), group_writer(), g),
        group_writer()(g).len() > 0,
        group_writer()(g)[0] == '{',
{
    assert forall|s: Seq<char>, i: int| holds(s, i, group_writer()(g)) implies #[trigger]
        group_reader()(s, i) == Some((g, i + group_writer()(g).len())) by {
        lemma_group(s, i, g);
    }
    reveal_strlit("{\"name\":");
}

/// An instant is read back.
pub proof fn lemma_timestamp(s: Seq<char>, i: int, t: Timestamp)
    requires
        holds(s, i, timestamp_text(t)),
    ensures
        timestamp_at(s, i) == Some((t, i + timestamp_text(t).len())),
{
    let a = "{\"secs_since_epoch\":"@;
    let b = decimal(t.secs as nat);
    let c = ",\"nanos_since_epoch\":"@;
    let d = decimal(t.nanos as nat);
    let e = seq!['}'];
    reveal_strlit(",\"nanos_since_epoch\":");
    lemma_split(s, i, a + b + c + d, e);
    lemma_split(s, i, a + b + c, d);
    lemma_split(s, i, a + b, c);
    lemma_split(s, i, a, b);
    lemma_holds_index(s, i + a.len() + b.len(), c, 0);
    lemma_holds_index(s, i + a.len() + b.len() + c.len() + d.len(), e, 0);
    lemma_number(s, i + a.len(), t.secs as nat, u64::MAX as nat);
    lemma_number(s, i + a.len() + b.len() + c.len(), t.nanos as nat, u32::MAX as nat);
}

/// A place and a time are read back.
pub proof fn lemma_place_and_time(s: Seq<char>, i: int, place: Seq<char>, time: Seq<char>)
    requires
        holds(s, i, place_and_time(place, time)),
    ensures
        place_and_time_at(s, i) == Some((place, time, i + place_and_time(place, time).len())),
{
    let a = "{\"place\":"@;
    let b = quoted(place);
    let c = ",\"time\":"@;
    let d = quoted(time);
    lemma_split(s, i, a + b + c, d);
    lemma_split(s, i, a + b, c);
    lemma_split(s, i, a, b);
    lemma_text(s, i + a.len(), place);
    lemma_text(s, i + a.len() + b.len() + c.len(), time);
}

/// The field of a meeting point is read back, and so is its absence in front
/// of the brace that closes the proposal.
pub proof fn lemma_meeting_field(s: Seq<char>, i: int, m: Option<(Seq<char>, Seq<char>)>)
    requires
        holds(s, i, meeting_field(m) + seq!['}']),
    ensures
        meeting_field_at(s, i) == Some((m, i + meeting_field(m).len())),
{
    reveal_strlit(",\"meeting_point\":");
    lemma_split(s, i, meeting_field(m), seq!['}']);
    match m {
        Some((place, time)) => {
            let a = ",\"meeting_point\":"@;
            let b = place_and_time(place, time);
            let c = seq!['}'];
            lemma_split(s, i, a + b, c);
            lemma_split(s, i, a, b);
            lemma_place_and_time(s, i + a.len(), place, time);
        },
        None => {
            lemma_holds_index(s, i, seq!['}'], 0);
            if lit_end(s, i, ",\"meeting_point\":"@) is Some {
                lemma_holds_index(s, i, ",\"meeting_point\":"@, 0);
            }
        },
    }
}

/// The group of a proposal and the instant at which it was made are read
/// back.
pub proof fn lemma_group_and_created(
    s: Seq<char>,
    i: int,
    group: Option<Seq<char>>,
    created: Timestamp,
)
    requires
        holds(
            s,
            i,
            ",\"group\":"@ + quoted_or_null(group) + ",\"created\":"@ + timestamp_text(created),
        ),
    ensures
        group_and_created_at(s, i) == Some(
            (
                group,
                created,
                i + (",\"group\":"@ + quoted_or_null(group) + ",\"created\":"@ + timestamp_text(
                    created,
                )).len(),
            ),
        ),
{
    let a = ",\"group\":"@;
    let b = quoted_or_null(group);
    let c = ",\"created\":"@;
    let d = timestamp_text(created);
    lemma_split(s, i, a + b + c, d);
    lemma_split(s, i, a + b, c);
    lemma_split(s, i, a, b);
    lemma_text_or_null(s, i + a.len(), group);
    lemma_timestamp(s, i + a.len() + b.len() + c.len(), created);
}

/// A proposal is read back.
pub proof fn lemma_proposal(s: Seq<char>, i: int, p: ProposalView)
    requires
        holds(s, i, proposal_text(p)),
    ensures
        proposal_at(s, i) == Some((p, i + proposal_text(p).len())),
{
    let head = place_and_time(p.place, p.time);
    let middle = ",\"group\":"@ + quoted_or_null(p.group) + ",\"created\":"@ + timestamp_text(
        p.created,
    );
    let tail = meeting_field(p.meeting_point) + seq!['}'];
    assert(proposal_text(p) =~= head + (middle + tail));
    lemma_split(s, i, head, middle + tail);
    lemma_split(s, i + head.len(), middle, tail);
    lemma_place_and_time(s, i, p.place, p.time);
    lemma_group_and_created(s, i + head.len(), p.group, p.created);
    lemma_meeting_field(s, i + head.len() + middle.len(), p.meeting_point);
    lemma_split(s, i + head.len() + middle.len(), meeting_field(p.meeting_point), seq!['}']);
}

/// Proposals are read back wherever they are written, and what is written
/// for one starts with a brace.
pub proof fn lemma_proposal_reads_back(p: ProposalView)
    ensures
        reads_back(proposal_reader(), proposal_writer(), p),
        proposal_writer()(p).len() > 0,
        proposal_writer()(p)[0] == '{',
{
    assert forall|s: Seq<char>, i: int| holds(s, i, proposal_writer()(p)) implies #[trigger]
        proposal_reader()(s, i) == Some((p, i + proposal_writer()(p).len())) by {
        lemma_proposal(s, i, p);
    }
    reveal_strlit("{\"place\":");
}

/// The groups of a state are read back.
pub proof fn lemma_groups(s: Seq<char>, i: int, groups: Seq<GroupView>)
    requires
        holds(s, i, list_of(groups.map_values(group_writer()))),
    ensures
        list_at(s, i, group_reader()) == Some(
            (groups, i + list_of(groups.map_values(group_writer())).len()),
        ),
{
    assert forall|n: int| 0 <= n < groups.len() implies reads_back(
        group_reader(),
        group_writer(),
        #[trigger] groups[n],
    ) && group_writer()(groups[n]).len() > 0 && group_writer()(groups[n])[0] != ']' by {
        lemma_group_reads_back(groups[n]);
    }
    lemma_list(s, i, group_reader(), group_writer(), groups);
}

/// The proposals of a state are read back.
pub proof fn lemma_proposals(s: Seq<char>, i: int, proposals: Seq<ProposalView>)
    requires
        holds(s, i, list_of(proposals.map_values(proposal_writer()))),
    ensures
        list_at(s, i, proposal_reader()) == Some(
            (proposals, i + list_of(proposals.map_values(proposal_writer())).len()),
        ),
{
    assert forall|n: int| 0 <= n < proposals.len() implies reads_back(
        proposal_reader(),
        proposal_writer(),
        #[trigger] proposals[n],
    ) && proposal_writer()(proposals[n]).len() > 0 && proposal_writer()(proposals[n])[0]
        != ']' by {
        lemma_proposal_reads_back(proposals[n]);
    }
    lemma_list(s, i, proposal_reader(), proposal_writer(), proposals);
}

/// The groups and the proposals of a state are read back.
pub proof fn lemma_state_head(
    s: Seq<char>,
    i: int,
    groups: Seq<GroupView>,
    proposals: Seq<ProposalView>,
)
    requires
        holds(
            s,
            i,
            "{\"groups\":"@ + list_of(groups.map_values(group_writer())) + ",\"proposals\":"@
                + list_of(proposals.map_values(proposal_writer())),
        ),
    ensures
        state_head_at(s, i) == Some(
            (
                groups,
                proposals,
                i + ("{\"groups\":"@ + list_of(groups.map_values(group_writer()))
                    + ",\"proposals\":"@ + list_of(
                    proposals.map_values(proposal_writer()),
                )).len(),
            ),
        ),
{
    let a = "{\"groups\":"@;
    let b = list_of(groups.map_values(group_writer()));
    let c = ",\"proposals\":"@;
    let d = list_of(proposals.map_values(proposal_writer()));
    lemma_split(s, i, a + b + c, d);
    lemma_split(s, i, a + b, c);
    lemma_split(s, i, a, b);
    lemma_groups(s, i + a.len(), groups);
    lemma_proposals(s, i + a.len() + b.len() + c.len(), proposals);
}

/// A state is read back.
pub proof fn lemma_state(s: Seq<char>, i: int, v: StateView)
    requires
        holds(s, i, encode(v)),
    ensures
        state_at(s, i) == Some((v, i + encode(v).len())),
{
    let head = "{\"groups\":"@ + list_of(v.groups.map_values(group_writer()))
        + ",\"proposals\":"@ + list_of(v.proposals.map_values(proposal_writer()));
    let e = ",\"store\":"@;
    let f = decimal(v.store as nat);
    let g = ",\"channel\":"@;
    let h = quoted(v.channel);
    let k = seq!['}'];
    reveal_strlit(",\"channel\":");
    lemma_split(s, i, head + e + f + g + h, k);
    lemma_split(s, i, head + e + f + g, h);
    lemma_split(s, i, head + e + f, g);
    lemma_split(s, i, head + e, f);
    lemma_split(s, i, head, e);
    let at_f = i + head.len() + e.len();
    let at_h = at_f + f.len() + g.len();
    lemma_state_head(s, i, v.groups, v.proposals);
    lemma_holds_index(s, at_f + f.len(), g, 0);
    lemma_number(s, at_f, v.store as nat, u32::MAX as nat);
    lemma_text(s, at_h, v.channel);
}

/// Every state is read back from what is written for it: reading the text of
/// a state gives that state, with its groups, its proposals and the instants
/// at which they were made, its counter and its channel.
pub proof fn lemma_round_trip(v: StateView)
    ensures
        decode(encode(v)) == Some(v),
{
    let s = encode(v);
    assert(s.subrange(0, s.len() as int) =~= s);
    lemma_state(s, 0, v);
}

} // verus!
