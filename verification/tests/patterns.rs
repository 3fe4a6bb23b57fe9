use lunch_bot::syntax::{parse_command, ListOptions, LunchCommand};
use regex::{Captures, Regex};

/// The forms of the command language as regular expressions, searched for
/// anywhere in a line and tried in the order of the grammar.
struct Patterns {
    add: Regex,
    add_user: Regex,
    group: Regex,
    propose: Regex,
    list: Regex,
    dump: Regex,
    restore: Regex,
}

fn pattern(text: &str) -> Regex {
    match Regex::new(text) {
        Ok(r) => r,
        Err(e) => panic!("{}: {}", text, e),
    }
}

fn patterns() -> Patterns {
    let place = r#"((?:[\w-]+|['"][\s\w-]+['"]))"#;
    Patterns {
        add: pattern(r"lb add (\d+)"),
        add_user: pattern(r"lb add (\w+) to (\w+)"),
        group: pattern(r"lb group (?:(add) (\w+) ([\w,]+)|(remove) (\w+))"),
        propose: pattern(&format!(
            r"lb propose {} (?:at |@ )?([\w:]+)(?: to (\w+))?(?: meet {} ([\w:]+))?\s*",
            place, place
        )),
        list: pattern(r"lb list(?: (groups|proposals))?"),
        dump: pattern(r"lb dumpstate"),
        restore: pattern(r"lb restore (.*)"),
    }
}

fn group_text<'a>(caps: &Captures<'a>, i: usize) -> Option<&'a str> {
    caps.get(i).map(|m| m.as_str())
}

fn by_patterns<'a>(p: &Patterns, line: &'a str) -> Option<LunchCommand<'a>> {
    if let Some(caps) = p.add.captures(line) {
        let n = group_text(&caps, 1)?.parse::<u32>().ok()?;
        Some(LunchCommand::Add(n))
    } else if let Some(caps) = p.add_user.captures(line) {
        Some(LunchCommand::AddUser(group_text(&caps, 1)?, group_text(&caps, 2)?))
    } else if let Some(caps) = p.group.captures(line) {
        if caps.get(1).is_some() {
            let users = group_text(&caps, 3)?.split(',').collect();
            Some(LunchCommand::GroupAdd(group_text(&caps, 2)?, users))
        } else {
            Some(LunchCommand::GroupRemove(group_text(&caps, 5)?))
        }
    } else if let Some(caps) = p.propose.captures(line) {
        let meet = match (group_text(&caps, 4), group_text(&caps, 5)) {
            (Some(place), Some(time)) => Some((place, time)),
            _ => None,
        };
        Some(LunchCommand::Propose(
            group_text(&caps, 1)?,
            group_text(&caps, 2)?,
            group_text(&caps, 3),
            meet,
        ))
    } else if let Some(caps) = p.list.captures(line) {
        match group_text(&caps, 1) {
            Some("groups") => Some(LunchCommand::List(ListOptions::Groups)),
            _ => Some(LunchCommand::List(ListOptions::Proposals)),
        }
    } else if p.dump.is_match(line) {
        Some(LunchCommand::DumpState)
    } else if let Some(caps) = p.restore.captures(line) {
        Some(LunchCommand::RestoreState(group_text(&caps, 1)?))
    } else {
        None
    }
}

/// Whether a place is written between two quotes of different kinds.
fn has_odd_quotes(place: &str) -> bool {
    let first = place.chars().next();
    let last = place.chars().last();
    (first == Some('\'') || first == Some('"')) && first != last
}

/// Holds the parser to the patterns on one line. The parser is stricter in
/// two places: a quoted place closes with the quote it opened with, and
/// `lb dumpstate` stands alone.
fn hold_to_patterns(p: &Patterns, line: &str) {
    let got = parse_command(line);
    match by_patterns(p, line) {
        Some(LunchCommand::DumpState) if line != "lb dumpstate" => {
            assert_eq!(None, got, "{:?}", line)
        }
        Some(LunchCommand::Propose(place, _, _, _)) if has_odd_quotes(place) => {
            assert_eq!(None, got, "{:?}", line)
        }
        Some(LunchCommand::Propose(place, time, group, Some((meet, _)))) if has_odd_quotes(meet) => {
            assert_eq!(
                Some(LunchCommand::Propose(place, time, group, None)),
                got,
                "{:?}",
                line
            )
        }
        expected => assert_eq!(expected, got, "{:?}", line),
    }
}

/// Numbers that look random, the same on every run.
struct Dice(u64);

impl Dice {
    fn roll(&mut self, sides: usize) -> usize {
        self.0 = self
            .0
            .wrapping_mul(6364136223846793005)
            .wrapping_add(1442695040888963407);
        ((self.0 >> 33) % sides as u64) as usize
    }
}

const PIECES: [&str; 40] = [
    " ", " ", " ", " ", " ", " ", "add", "group", "remove", "propose", "list", "groups",
    "proposals", "dumpstate", "restore", "to", "at", "@", "meet", "5", "42", "4294967295",
    "4294967296", "007", "x", "team", "alice", "taste-of-india", "lobby", "honza_2", ",", ",bob",
    "-", ":", "12:30", "'", "\"", "'the pub'", "\"u kulecniku\"", "{}",
];

fn made_line(dice: &mut Dice, start: &str) -> String {
    let mut line = start.to_string();
    let pieces = dice.roll(9);
    for _ in 0..pieces {
        line.push_str(PIECES[dice.roll(PIECES.len())]);
    }
    line
}

#[test]
fn parser_agrees_with_patterns_on_known_lines() {
    let p = patterns();
    let lines = [
        "lb add 5",
        "lb add honza to coreserv1",
        "lb group add coreserv1 jan,ondra,tester",
        "lb group remove coreserv1",
        "lb list",
        "lb list groups",
        "lb list proposals",
        "lb propose winston 10:55",
        "lb propose winston 10:55 to corserv1",
        "lb propose taste-of-india 10:55",
        "lb propose \"taste of india\" 10:55",
        "lb propose 'taste of india' 10:55",
        "lb propose 'taste of india' at 10:55",
        "lb propose 'taste of india' @ 10:55",
        "lb propose 'taste of india' @ 11:00 meet \"u kulecniku\" 10:42",
        "lb propose 'taste of india' @ 11:00 to test1 meet \"u kulecniku\" 10:42",
        "lb propose 'x' @ 11:00 to g meet \"y\" 10:42",
        "lb dumpstate",
        "lb restore {\"groups\":[],\"proposals\":[],\"store\":0,\"channel\":\"#c\"}",
        "lb restore ",
        "lb add 4294967296",
        "lb add 5 to team",
        "lb group add g a,,b,",
        "lb propose x at",
        "lb propose x at ",
        "lb propose x @ ",
        "lb propose x 12 to ",
        "lb propose x 12 to g meet y",
        "lb propose x at at to to meet meet meet",
        "lb propose - : to _ meet - :",
        "lb list everything",
        "lb",
        "lb ",
        "",
    ];
    for line in lines {
        hold_to_patterns(&p, line);
        assert_eq!(by_patterns(&p, line), parse_command(line), "{:?}", line);
    }
}

#[test]
fn parser_is_stricter_than_patterns_in_two_places() {
    let p = patterns();
    assert_eq!(
        Some(LunchCommand::DumpState),
        by_patterns(&p, "lb dumpstate now")
    );
    assert_eq!(None, parse_command("lb dumpstate now"));
    assert_eq!(
        Some(LunchCommand::Propose("'x\"", "12", None, None)),
        by_patterns(&p, "lb propose 'x\" 12")
    );
    assert_eq!(None, parse_command("lb propose 'x\" 12"));
    hold_to_patterns(&p, "lb dumpstate now");
    hold_to_patterns(&p, "lb propose 'x\" 12");
    hold_to_patterns(&p, "lb propose x 12 meet \"y' 11");
}

#[test]
fn parser_agrees_with_patterns_on_made_lines() {
    let p = patterns();
    let mut dice = Dice(2024);
    let starts = [
        "lb ",
        "lb add ",
        "lb group add ",
        "lb group remove ",
        "lb propose ",
        "lb propose x ",
        "lb propose 'a b' at 12 ",
        "lb list",
        "lb dumpstate",
        "lb restore ",
        "lb",
        "",
    ];
    let mut commands = 0;
    for round in 0..6000 {
        let line = made_line(&mut dice, starts[round % starts.len()]);
        hold_to_patterns(&p, &line);
        if parse_command(&line).is_some() {
            commands += 1;
        }
    }
    // The lines are not all of one kind.
    assert!(commands > 1000, "{}", commands);
    assert!(commands < 5500, "{}", commands);
}
