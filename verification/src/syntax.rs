//! The command language: what a line of chat means.
//!
//! A line is a command when it begins with one of the forms below; what
//! follows a complete form is ignored, except after `lb dumpstate`, which
//! stands alone. The forms are tried in the order in which `parse_line` lists
//! them and the first that fits decides.
use crate::text::{chars_of, decimal_value, digit_value, is_digit};
use vstd::prelude::*;
use vstd::string::*;

verus! {

/// What `lb list` is asked to show.
#[derive(Debug, PartialEq, Eq, Clone, Copy, Structural)]
pub enum ListOptions {
    Groups,
    Proposals,
}

/// A command, with its arguments borrowed from the line it was read from.
#[derive(Debug, PartialEq, Eq)]
pub enum LunchCommand<'a> {
    Add(u32),
    AddUser(&'a str, &'a str),
    GroupAdd(&'a str, Vec<&'a str>),
    GroupRemove(&'a str),
    List(ListOptions),
    /// Place, time, group, meeting point (place and time).
    Propose(&'a str, &'a str, Option<&'a str>, Option<(&'a str, &'a str)>),
    DumpState,
    RestoreState(&'a str),
}

/// A command as a mathematical value: every argument is a sequence of
/// characters.
pub enum CommandText {
    Add(u32),
    AddUser(Seq<char>, Seq<char>),
    GroupAdd(Seq<char>, Seq<Seq<char>>),
    GroupRemove(Seq<char>),
    List(ListOptions),
    Propose(Seq<char>, Seq<char>, Option<Seq<char>>, Option<(Seq<char>, Seq<char>)>),
    DumpState,
    RestoreState(Seq<char>),
}

impl<'a> View for LunchCommand<'a> {
    type V = CommandText;

    open spec fn view(&self) -> CommandText {
        match *self {
            LunchCommand::Add(n) => CommandText::Add(n),
            LunchCommand::AddUser(user, group) => CommandText::AddUser(user@, group@),
            LunchCommand::GroupAdd(name, users) => CommandText::GroupAdd(
                name@,
                users@.map_values(|u: &str| u@),
            ),
            LunchCommand::GroupRemove(name) => CommandText::GroupRemove(name@),
            LunchCommand::List(option) => CommandText::List(option),
            LunchCommand::Propose(place, time, group, meet) => CommandText::Propose(
                place@,
                time@,
                match group {
                    Some(g) => Some(g@),
                    None => None,
                },
                match meet {
                    Some((p, t)) => Some((p@, t@)),
                    None => None,
                },
            ),
            LunchCommand::DumpState => CommandText::DumpState,
            LunchCommand::RestoreState(payload) => CommandText::RestoreState(payload@),
        }
    }
}

/// The view of what the parser returns.
pub open spec fn outcome(r: Option<LunchCommand>) -> Option<CommandText> {
    match r {
        Some(c) => Some(c@),
        None => None,
    }
}

/// The kinds of character that the grammar's tokens are made of.
#[derive(Debug, PartialEq, Eq, Clone, Copy, Structural)]
pub enum Class {
    /// `0` to `9`.
    Digit,
    /// Letters of the Latin alphabet, digits and `_`.
    Word,
    /// Word characters and `-`: a place written without quotes.
    Place,
    /// Word characters, `-` and the space: the inside of a quoted place.
    Phrase,
    /// Word characters and `:`: a time.
    Time,
    /// Word characters and `,`: a list of members.
    List,
}

/// Whether `c` is a letter of the Latin alphabet, a digit or `_`.
pub open spec fn is_word(c: char) -> bool {
    ('a' <= c <= 'z') || ('A' <= c <= 'Z') || is_digit(c) || c == '_'
}

/// Whether `c` opens or closes a quoted place.
pub open spec fn is_quote(c: char) -> bool {
    c == '\'' || c == '"'
}

/// Whether `c` belongs to the class `k`.
pub open spec fn in_class(k: Class, c: char) -> bool {
    match k {
        Class::Digit => is_digit(c),
        Class::Word => is_word(c),
        Class::Place => is_word(c) || c == '-',
        Class::Phrase => is_word(c) || c == '-' || c == ' ',
        Class::Time => is_word(c) || c == ':',
        Class::List => is_word(c) || c == ',',
    }
}

/// Where the longest run of characters of class `k` that starts at `i` ends:
/// the first position from `i` on that holds no such character.
pub open spec fn run_end(s: Seq<char>, k: Class, i: int) -> int
    decreases s.len() - i,
{
    if 0 <= i < s.len() && in_class(k, s[i]) {
        run_end(s, k, i + 1)
    } else {
        i
    }
}

/// The end of the token of class `k` at `i`: a run of at least one character.
pub open spec fn token_end(s: Seq<char>, k: Class, i: int) -> Option<int> {
    if run_end(s, k, i) > i {
        Some(run_end(s, k, i))
    } else {
        None
    }
}

/// The end of the literal `lit` at `i`, where `s` continues with it there.
pub open spec fn lit_end(s: Seq<char>, i: int, lit: Seq<char>) -> Option<int> {
    if 0 <= i && i + lit.len() <= s.len() && s.subrange(i, i + lit.len()) == lit {
        Some(i + lit.len())
    } else {
        None
    }
}

/// The end of the place at `i`: a token of word characters and hyphens, or a
/// phrase between two quotes of the same kind, the quotes included.
pub open spec fn place_end(s: Seq<char>, i: int) -> Option<int> {
    if token_end(s, Class::Place, i) is Some {
        token_end(s, Class::Place, i)
    } else if 0 <= i < s.len() && is_quote(s[i]) {
        match token_end(s, Class::Phrase, i + 1) {
            Some(j) => if j < s.len() && s[j] == s[i] {
                Some(j + 1)
            } else {
                None
            },
            None => None,
        }
    } else {
        None
    }
}

/// Where the time of a proposal starts, given that the place and the space
/// after it end at `i`: behind `at ` or `@ ` where a time follows that
/// separator, else at `i` itself.
pub open spec fn time_start(s: Seq<char>, i: int) -> int {
    if lit_end(s, i, "at "@) is Some && token_end(s, Class::Time, lit_end(s, i, "at "@)->0)
        is Some {
        lit_end(s, i, "at "@)->0
    } else if lit_end(s, i, "@ "@) is Some && token_end(
        s,
        Class::Time,
        lit_end(s, i, "@ "@)->0,
    ) is Some {
        lit_end(s, i, "@ "@)->0
    } else {
        i
    }
}

/// The group of a proposal whose time ends at `i`: start and end of the word
/// behind ` to `.
pub open spec fn group_span(s: Seq<char>, i: int) -> Option<(int, int)> {
    match lit_end(s, i, " to "@) {
        Some(a) => match token_end(s, Class::Word, a) {
            Some(b) => Some((a, b)),
            None => None,
        },
        None => None,
    }
}

/// The meeting point of a proposal whose time and group end at `i`: start and
/// end of the place behind ` meet `, and start and end of the time behind it.
pub open spec fn meet_span(s: Seq<char>, i: int) -> Option<(int, int, int, int)> {
    match lit_end(s, i, " meet "@) {
        Some(a) => match place_end(s, a) {
            Some(b) => match lit_end(s, b, " "@) {
                Some(c) => match token_end(s, Class::Time, c) {
                    Some(d) => Some((a, b, c, d)),
                    None => None,
                },
                None => None,
            },
            None => None,
        },
        None => None,
    }
}

/// The pieces of `s` between the occurrences of `sep`, empty pieces included:
/// one more piece than there are separators.
pub open spec fn split(s: Seq<char>, sep: char) -> Seq<Seq<char>>
    decreases s.len(),
{
    if s.len() == 0 {
        seq![Seq::empty()]
    } else {
        let head = split(s.drop_last(), sep);
        if s.last() == sep {
            head.push(Seq::empty())
        } else {
            head.drop_last().push(head.last().push(s.last()))
        }
    }
}

/// `lb add <digits>`: the digits where the line has that form. The inner
/// result is the command, or nothing where the number does not fit 32 bits.
pub open spec fn add_rule(s: Seq<char>) -> Option<Option<CommandText>> {
    match lit_end(s, 0, "lb add "@) {
        Some(a) => match token_end(s, Class::Digit, a) {
            Some(b) => {
                let n = decimal_value(s.subrange(a, b));
                if n <= u32::MAX {
                    Some(Some(CommandText::Add(n as u32)))
                } else {
                    Some(None)
                }
            },
            None => None,
        },
        None => None,
    }
}

/// `lb add <word> to <word>`.
pub open spec fn add_user_rule(s: Seq<char>) -> Option<CommandText> {
    match lit_end(s, 0, "lb add "@) {
        Some(a) => match token_end(s, Class::Word, a) {
            Some(b) => match lit_end(s, b, " to "@) {
                Some(c) => match token_end(s, Class::Word, c) {
                    Some(d) => Some(CommandText::AddUser(s.subrange(a, b), s.subrange(c, d))),
                    None => None,
                },
                None => None,
            },
            None => None,
        },
        None => None,
    }
}

/// `lb group add <word> <list>`, the list split at its commas.
pub open spec fn group_add_rule(s: Seq<char>) -> Option<CommandText> {
    match lit_end(s, 0, "lb group add "@) {
        Some(a) => match token_end(s, Class::Word, a) {
            Some(b) => match lit_end(s, b, " "@) {
                Some(c) => match token_end(s, Class::List, c) {
                    Some(d) => Some(
                        CommandText::GroupAdd(s.subrange(a, b), split(s.subrange(c, d), ',')),
                    ),
                    None => None,
                },
                None => None,
            },
            None => None,
        },
        None => None,
    }
}

/// `lb group remove <word>`.
pub open spec fn group_remove_rule(s: Seq<char>) -> Option<CommandText> {
    match lit_end(s, 0, "lb group remove "@) {
        Some(a) => match token_end(s, Class::Word, a) {
            Some(b) => Some(CommandText::GroupRemove(s.subrange(a, b))),
            None => None,
        },
        None => None,
    }
}

/// `lb group add ..` or `lb group remove ..`.
pub open spec fn group_rule(s: Seq<char>) -> Option<CommandText> {
    if group_add_rule(s) is Some {
        group_add_rule(s)
    } else {
        group_remove_rule(s)
    }
}

/// `lb propose <place> [at |@ ]<time>[ to <group>][ meet <place> <time>]`.
pub open spec fn propose_rule(s: Seq<char>) -> Option<CommandText> {
    match lit_end(s, 0, "lb propose "@) {
        Some(a) => match place_end(s, a) {
            Some(b) => match lit_end(s, b, " "@) {
                Some(c) => {
                    let t = time_start(s, c);
                    match token_end(s, Class::Time, t) {
                        Some(d) => {
                            let group = group_span(s, d);
                            let e = match group {
                                Some((_, end)) => end,
                                None => d,
                            };
                            Some(
                                CommandText::Propose(
                                    s.subrange(a, b),
                                    s.subrange(t, d),
                                    match group {
                                        Some((from, to)) => Some(s.subrange(from, to)),
                                        None => None,
                                    },
                                    match meet_span(s, e) {
                                        Some((pa, pb, ta, tb)) => Some(
                                            (s.subrange(pa, pb), s.subrange(ta, tb)),
                                        ),
                                        None => None,
                                    },
                                ),
                            )
                        },
                        None => None,
                    }
                },
                None => None,
            },
            None => None,
        },
        None => None,
    }
}

/// `lb list`, `lb list groups` or `lb list proposals`; proposals where
/// neither word follows.
pub open spec fn list_rule(s: Seq<char>) -> Option<CommandText> {
    match lit_end(s, 0, "lb list"@) {
        Some(a) => if lit_end(s, a, " groups"@) is Some {
            Some(CommandText::List(ListOptions::Groups))
        } else {
            Some(CommandText::List(ListOptions::Proposals))
        },
        None => None,
    }
}

/// `lb dumpstate`, and nothing else on the line.
pub open spec fn dump_rule(s: Seq<char>) -> Option<CommandText> {
    if s == "lb dumpstate"@ {
        Some(CommandText::DumpState)
    } else {
        None
    }
}

/// `lb restore <payload>`: the payload is the rest of the line.
pub open spec fn restore_rule(s: Seq<char>) -> Option<CommandText> {
    match lit_end(s, 0, "lb restore "@) {
        Some(a) => Some(CommandText::RestoreState(s.subrange(a, s.len() as int))),
        None => None,
    }
}

/// The meaning of a line: the command of the first form that fits, or nothing.
/// A line of the form `lb add <digits>` is never read as another command, even
/// where its number is too large to be one.
pub open spec fn parse_line(s: Seq<char>) -> Option<CommandText> {
    if add_rule(s) is Some {
        add_rule(s)->0
    } else if add_user_rule(s) is Some {
        add_user_rule(s)
    } else if group_rule(s) is Some {
        group_rule(s)
    } else if propose_rule(s) is Some {
        propose_rule(s)
    } else if list_rule(s) is Some {
        list_rule(s)
    } else if dump_rule(s) is Some {
        dump_rule(s)
    } else {
        restore_rule(s)
    }
}

/// Whether `c` belongs to the class `k`.
pub fn class_has(k: Class, c: char) -> (b: bool)
    ensures
        b == in_class(k, c),
{
    let word = ('a' <= c && c <= 'z') || ('A' <= c && c <= 'Z') || ('0' <= c && c <= '9') || c
        == '_';
    match k {
        Class::Digit => '0' <= c && c <= '9',
        Class::Word => word,
        Class::Place => word || c == '-',
        Class::Phrase => word || c == '-' || c == ' ',
        Class::Time => word || c == ':',
        Class::List => word || c == ',',
    }
}

/// Scans the longest run of characters of class `k` from `i` on.
pub fn scan(chars: &Vec<char>, k: Class, i: usize) -> (j: usize)
    requires
        i <= chars@.len(),
    ensures
        i <= j <= chars@.len(),
        j == run_end(chars@, k, i as int),
{
    let mut j: usize = i;
    while j < chars.len() && class_has(k, chars[j])
        invariant
            i <= j <= chars@.len(),
            run_end(chars@, k, j as int) == run_end(chars@, k, i as int),
        decreases chars@.len() - j,
    {
        j += 1;
    }
    j
}

/// Scans a token of class `k` at `i`.
pub fn token(chars: &Vec<char>, k: Class, i: usize) -> (r: Option<usize>)
    requires
        i <= chars@.len(),
    ensures
        match r {
            Some(j) => i < j <= chars@.len() && token_end(chars@, k, i as int) == Some(j as int),
            None => token_end(chars@, k, i as int) is None,
        },
{
    let j = scan(chars, k, i);
    if j > i {
        Some(j)
    } else {
        None
    }
}

/// Matches the literal `lit` at `i`.
pub fn expect(chars: &Vec<char>, i: usize, lit: &str) -> (r: Option<usize>)
    requires
        i <= chars@.len(),
    ensures
        match r {
            Some(j) => i <= j <= chars@.len() && lit_end(chars@, i as int, lit@) == Some(
                j as int,
            ),
            None => lit_end(chars@, i as int, lit@) is None,
        },
{
    let want = chars_of(lit);
    if want.len() > chars.len() - i {
        return None;
    }
    let mut k: usize = 0;
    while k < want.len()
        invariant
            k <= want@.len(),
            i + want@.len() <= chars@.len() <= usize::MAX,
            want@ == lit@,
            chars@.subrange(i as int, i + k) == want@.take(k as int),
        decreases want@.len() - k,
    {
        if chars[i + k] != want[k] {
            proof {
                let got = chars@.subrange(i as int, i + want@.len());
                assert(got[k as int] != want@[k as int]);
            }
            return None;
        }
        proof {
            assert(chars@.subrange(i as int, i + k + 1) =~= chars@.subrange(i as int, i + k).push(
                chars@[i + k],
            ));
            assert(want@.take(k + 1) =~= want@.take(k as int).push(want@[k as int]));
        }
        k += 1;
    }
    proof {
        assert(want@.take(want@.len() as int) =~= want@);
    }
    Some(i + want.len())
}

/// Scans a place at `i`.
fn place(chars: &Vec<char>, i: usize) -> (r: Option<usize>)
    requires
        i <= chars@.len(),
    ensures
        match r {
            Some(j) => i < j <= chars@.len() && place_end(chars@, i as int) == Some(j as int),
            None => place_end(chars@, i as int) is None,
        },
{
    if let Some(j) = token(chars, Class::Place, i) {
        return Some(j);
    }
    if i < chars.len() && (chars[i] == '\'' || chars[i] == '"') {
        match token(chars, Class::Phrase, i + 1) {
            Some(j) => {
                if j < chars.len() && chars[j] == chars[i] {
                    Some(j + 1)
                } else {
                    None
                }
            },
            None => None,
        }
    } else {
        None
    }
}

/// Finds where the time of a proposal starts.
fn time_at(chars: &Vec<char>, i: usize) -> (t: usize)
    requires
        i <= chars@.len(),
    ensures
        i <= t <= chars@.len(),
        t == time_start(chars@, i as int),
{
    if let Some(a) = expect(chars, i, "at ") {
        if token(chars, Class::Time, a).is_some() {
            return a;
        }
    }
    if let Some(a) = expect(chars, i, "@ ") {
        if token(chars, Class::Time, a).is_some() {
            return a;
        }
    }
    i
}

/// Scans the group of a proposal.
fn group_at(chars: &Vec<char>, i: usize) -> (r: Option<(usize, usize)>)
    requires
        i <= chars@.len(),
    ensures
        match r {
            Some((a, b)) => a <= b <= chars@.len() && group_span(chars@, i as int) == Some(
                (a as int, b as int),
            ),
            None => group_span(chars@, i as int) is None,
        },
{
    match expect(chars, i, " to ") {
        Some(a) => match token(chars, Class::Word, a) {
            Some(b) => Some((a, b)),
            None => None,
        },
        None => None,
    }
}

/// Scans the meeting point of a proposal.
fn meet_at(chars: &Vec<char>, i: usize) -> (r: Option<(usize, usize, usize, usize)>)
    requires
        i <= chars@.len(),
    ensures
        match r {
            Some((a, b, c, d)) => a <= b <= c <= d <= chars@.len() && meet_span(
                chars@,
                i as int,
            ) == Some((a as int, b as int, c as int, d as int)),
            None => meet_span(chars@, i as int) is None,
        },
{
    let a = match expect(chars, i, " meet ") {
        Some(a) => a,
        None => { return None; },
    };
    let b = match place(chars, a) {
        Some(b) => b,
        None => { return None; },
    };
    let c = match expect(chars, b, " ") {
        Some(c) => c,
        None => { return None; },
    };
    match token(chars, Class::Time, c) {
        Some(d) => Some((a, b, c, d)),
        None => None,
    }
}

/// The number that the digits `chars[from..to]` denote, where it fits 64 bits.
pub fn number(chars: &Vec<char>, from: usize, to: usize) -> (r: Option<u64>)
    requires
        from <= to <= chars@.len(),
        forall|i: int| from <= i < to ==> is_digit(#[trigger] chars@[i]),
    ensures
        match r {
            Some(n) => decimal_value(chars@.subrange(from as int, to as int)) == n,
            None => decimal_value(chars@.subrange(from as int, to as int)) > u64::MAX,
        },
{
    let mut value: u128 = 0;
    let mut fits = true;
    let mut i: usize = from;
    while i < to
        invariant
            from <= i <= to <= chars@.len(),
            forall|j: int| from <= j < to ==> is_digit(#[trigger] chars@[j]),
            fits ==> value == decimal_value(chars@.subrange(from as int, i as int)),
            fits ==> value <= u64::MAX,
            !fits ==> decimal_value(chars@.subrange(from as int, i as int)) > u64::MAX,
        decreases to - i,
    {
        let c = chars[i];
        proof {
            assert(is_digit(chars@[i as int]));
            assert(chars@.subrange(from as int, i + 1).drop_last() =~= chars@.subrange(
                from as int,
                i as int,
            ));
        }
        if fits {
            let d: u128 = (c as u8 - 48u8) as u128;
            assert(d == digit_value(c));
            value = value * 10 + d;
            if value > 0xffff_ffff_ffff_ffff {
                fits = false;
            }
        }
        i += 1;
    }
    if fits {
        Some(value as u64)
    } else {
        None
    }
}

/// That a run holds only characters of its class.
pub proof fn lemma_run(s: Seq<char>, k: Class, i: int)
    requires
        0 <= i <= s.len(),
    ensures
        i <= run_end(s, k, i) <= s.len(),
        forall|j: int| i <= j < run_end(s, k, i) ==> in_class(k, #[trigger] s[j]),
    decreases s.len() - i,
{
    if i < s.len() && in_class(k, s[i]) {
        lemma_run(s, k, i + 1);
    }
}

/// Cuts `line[from..to]` at each occurrence of `sep`.
fn split_at<'a>(line: &'a str, chars: &Vec<char>, from: usize, to: usize, sep: char) -> (out: Vec<
    &'a str,
>)
    requires
        chars@ == line@,
        from <= to <= chars@.len(),
    ensures
        out@.map_values(|u: &str| u@) == split(chars@.subrange(from as int, to as int), sep),
{
    let mut out: Vec<&'a str> = Vec::new();
    let mut start: usize = from;
    let mut i: usize = from;
    proof {
        assert(chars@.subrange(from as int, from as int) =~= Seq::<char>::empty());
        assert(out@.map_values(|u: &str| u@).push(Seq::<char>::empty()) =~= seq![
            Seq::<char>::empty(),
        ]);
    }
    while i < to
        invariant
            chars@ == line@,
            from <= start <= i <= to <= chars@.len(),
            split(chars@.subrange(from as int, i as int), sep) == out@.map_values(
                |u: &str| u@,
            ).push(chars@.subrange(start as int, i as int)),
        decreases to - i,
    {
        let ghost done = out@.map_values(|u: &str| u@);
        let ghost piece = chars@.subrange(start as int, i as int);
        proof {
            let t = chars@.subrange(from as int, i + 1);
            assert(t.drop_last() =~= chars@.subrange(from as int, i as int));
            assert(t.last() == chars@[i as int]);
            assert(done.push(piece).drop_last() =~= done);
            assert(done.push(piece).last() == piece);
        }
        if chars[i] == sep {
            let item = line.substring_char(start, i);
            out.push(item);
            start = i + 1;
            proof {
                assert(out@.map_values(|u: &str| u@) =~= done.push(piece));
                assert(chars@.subrange(start as int, i + 1) =~= Seq::<char>::empty());
            }
        } else {
            proof {
                assert(piece.push(chars@[i as int]) =~= chars@.subrange(start as int, i + 1));
            }
        }
        i += 1;
    }
    let ghost done = out@.map_values(|u: &str| u@);
    let item = line.substring_char(start, to);
    out.push(item);
    proof {
        assert(out@.map_values(|u: &str| u@) =~= done.push(item@));
    }
    out
}

/// Reads `lb add <digits>`.
fn parse_add<'a>(chars: &Vec<char>) -> (r: Option<Option<LunchCommand<'a>>>)
    ensures
        match r {
            Some(c) => add_rule(chars@) == Some(outcome(c)),
            None => add_rule(chars@) is None,
        },
{
    let a = match expect(chars, 0, "lb add ") {
        Some(a) => a,
        None => { return None; },
    };
    let b = match token(chars, Class::Digit, a) {
        Some(b) => b,
        None => { return None; },
    };
    proof {
        lemma_run(chars@, Class::Digit, a as int);
    }
    match number(chars, a, b) {
        Some(n) => if n <= 0xffff_ffff {
            Some(Some(LunchCommand::Add(n as u32)))
        } else {
            Some(None)
        },
        None => Some(None),
    }
}

/// Reads `lb add <word> to <word>`.
fn parse_add_user<'a>(line: &'a str, chars: &Vec<char>) -> (r: Option<LunchCommand<'a>>)
    requires
        chars@ == line@,
    ensures
        outcome(r) == add_user_rule(line@),
{
    let a = match expect(chars, 0, "lb add ") {
        Some(a) => a,
        None => { return None; },
    };
    let b = match token(chars, Class::Word, a) {
        Some(b) => b,
        None => { return None; },
    };
    let c = match expect(chars, b, " to ") {
        Some(c) => c,
        None => { return None; },
    };
    let d = match token(chars, Class::Word, c) {
        Some(d) => d,
        None => { return None; },
    };
    Some(LunchCommand::AddUser(line.substring_char(a, b), line.substring_char(c, d)))
}

/// Reads `lb group add <word> <list>` or `lb group remove <word>`.
fn parse_group<'a>(line: &'a str, chars: &Vec<char>) -> (r: Option<LunchCommand<'a>>)
    requires
        chars@ == line@,
    ensures
        outcome(r) == group_rule(line@),
{
    if let Some(a) = expect(chars, 0, "lb group add ") {
        if let Some(b) = token(chars, Class::Word, a) {
            if let Some(c) = expect(chars, b, " ") {
                if let Some(d) = token(chars, Class::List, c) {
                    let users = split_at(line, chars, c, d, ',');
                    return Some(LunchCommand::GroupAdd(line.substring_char(a, b), users));
                }
            }
        }
    }
    let a = match expect(chars, 0, "lb group remove ") {
        Some(a) => a,
        None => { return None; },
    };
    match token(chars, Class::Word, a) {
        Some(b) => Some(LunchCommand::GroupRemove(line.substring_char(a, b))),
        None => None,
    }
}

/// Reads `lb propose <place> [at |@ ]<time>[ to <group>][ meet <place> <time>]`.
fn parse_propose<'a>(line: &'a str, chars: &Vec<char>) -> (r: Option<LunchCommand<'a>>)
    requires
        chars@ == line@,
    ensures
        outcome(r) == propose_rule(line@),
{
    let a = match expect(chars, 0, "lb propose ") {
        Some(a) => a,
        None => { return None; },
    };
    let b = match place(chars, a) {
        Some(b) => b,
        None => { return None; },
    };
    let c = match expect(chars, b, " ") {
        Some(c) => c,
        None => { return None; },
    };
    let t = time_at(chars, c);
    let d = match token(chars, Class::Time, t) {
        Some(d) => d,
        None => { return None; },
    };
    let span = group_at(chars, d);
    let (group, e) = match span {
        Some((from, to)) => (Some(line.substring_char(from, to)), to),
        None => (None, d),
    };
    let meet = match meet_at(chars, e) {
        Some((pa, pb, ta, tb)) => Some((line.substring_char(pa, pb), line.substring_char(ta, tb))),
        None => None,
    };
    Some(LunchCommand::Propose(line.substring_char(a, b), line.substring_char(t, d), group, meet))
}

/// Reads `lb list`, with or without what to list.
fn parse_list<'a>(chars: &Vec<char>) -> (r: Option<LunchCommand<'a>>)
    ensures
        outcome(r) == list_rule(chars@),
{
    let a = match expect(chars, 0, "lb list") {
        Some(a) => a,
        None => { return None; },
    };
    if expect(chars, a, " groups").is_some() {
        Some(LunchCommand::List(ListOptions::Groups))
    } else {
        Some(LunchCommand::List(ListOptions::Proposals))
    }
}

/// Reads `lb dumpstate`.
fn parse_dump<'a>(chars: &Vec<char>) -> (r: Option<LunchCommand<'a>>)
    ensures
        outcome(r) == dump_rule(chars@),
{
    match expect(chars, 0, "lb dumpstate") {
        Some(a) => {
            if a == chars.len() {
                proof {
                    assert(chars@.subrange(0, a as int) =~= chars@);
                }
                Some(LunchCommand::DumpState)
            } else {
                None
            }
        },
        None => {
            proof {
                if chars@ == "lb dumpstate"@ {
                    assert(chars@.subrange(0, chars@.len() as int) =~= chars@);
                }
            }
            None
        },
    }
}

/// Reads `lb restore <payload>`.
fn parse_restore<'a>(line: &'a str, chars: &Vec<char>) -> (r: Option<LunchCommand<'a>>)
    requires
        chars@ == line@,
    ensures
        outcome(r) == restore_rule(line@),
{
    match expect(chars, 0, "lb restore ") {
        Some(a) => Some(LunchCommand::RestoreState(line.substring_char(a, chars.len()))),
        None => None,
    }
}

/// Whether a line is meant for the bot: it starts with `lb` and a space.
pub open spec fn addressed(s: Seq<char>) -> bool {
    lit_end(s, 0, "lb "@) is Some
}

/// Tests whether `line` is meant for the bot.
pub fn is_addressed(line: &str) -> (b: bool)
    ensures
        b == addressed(line@),
{
    let chars = chars_of(line);
    expect(&chars, 0, "lb ").is_some()
}

/// What starts with a longer literal starts with each shorter one that the
/// literal starts with.
proof fn lemma_prefix(s: Seq<char>, long: Seq<char>, short: Seq<char>)
    requires
        lit_end(s, 0, long) is Some,
        short.is_prefix_of(long),
    ensures
        lit_end(s, 0, short) is Some,
{
    assert(s.subrange(0, short.len() as int) =~= s.subrange(0, long.len() as int).subrange(
        0,
        short.len() as int,
    ));
}

/// Every command is meant for the bot: a line that does not start with `lb`
/// and a space holds no command.
pub proof fn lemma_commands_are_addressed(s: Seq<char>)
    requires
        parse_line(s) is Some,
    ensures
        addressed(s),
{
    reveal_strlit("lb ");
    reveal_strlit("lb add ");
    reveal_strlit("lb group add ");
    reveal_strlit("lb group remove ");
    reveal_strlit("lb propose ");
    reveal_strlit("lb list");
    reveal_strlit("lb dumpstate");
    reveal_strlit("lb restore ");
    let short = "lb "@;
    if add_rule(s) is Some || add_user_rule(s) is Some {
        assert(short =~= "lb add "@.subrange(0, 3));
        lemma_prefix(s, "lb add "@, short);
    } else if group_add_rule(s) is Some {
        assert(short =~= "lb group add "@.subrange(0, 3));
        lemma_prefix(s, "lb group add "@, short);
    } else if group_remove_rule(s) is Some {
        assert(short =~= "lb group remove "@.subrange(0, 3));
        lemma_prefix(s, "lb group remove "@, short);
    } else if propose_rule(s) is Some {
        assert(short =~= "lb propose "@.subrange(0, 3));
        lemma_prefix(s, "lb propose "@, short);
    } else if list_rule(s) is Some {
        assert(short =~= "lb list"@.subrange(0, 3));
        lemma_prefix(s, "lb list"@, short);
    } else if dump_rule(s) is Some {
        assert(s.subrange(0, 3) =~= short);
    } else {
        assert(short =~= "lb restore "@.subrange(0, 3));
        lemma_prefix(s, "lb restore "@, short);
    }
}

/// Reads a line of chat: the command it holds, or nothing where it holds none.
/// Every line has exactly one reading, `parse_line`, and reading it changes
/// nothing.
pub fn parse_command<'a>(line: &'a str) -> (r: Option<LunchCommand<'a>>)
    ensures
        outcome(r) == parse_line(line@),
{
    let chars = chars_of(line);
    if let Some(r) = parse_add(&chars) {
        return r;
    }
    if let Some(c) = parse_add_user(line, &chars) {
        return Some(c);
    }
    if let Some(c) = parse_group(line, &chars) {
        return Some(c);
    }
    if let Some(c) = parse_propose(line, &chars) {
        return Some(c);
    }
    if let Some(c) = parse_list(&chars) {
        return Some(c);
    }
    if let Some(c) = parse_dump(&chars) {
        return Some(c);
    }
    parse_restore(line, &chars)
}

} // verus!
