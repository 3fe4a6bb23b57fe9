use lunch_bot::syntax::{is_addressed, parse_command, ListOptions, LunchCommand};

#[test]
fn test_add_cmd() {
    assert_eq!(Some(LunchCommand::Add(5)), parse_command("lb add 5"))
}

#[test]
fn test_add_user_cmd() {
    assert_eq!(
        Some(LunchCommand::AddUser("honza", "coreserv1")),
        parse_command("lb add honza to coreserv1")
    )
}

#[test]
fn test_group_add_cmd() {
    assert_eq!(
        Some(LunchCommand::GroupAdd(
            "coreserv1",
            vec!["jan", "ondra", "tester"]
        )),
        parse_command("lb group add coreserv1 jan,ondra,tester")
    )
}

#[test]
fn test_group_remove_cmd() {
    assert_eq!(
        Some(LunchCommand::GroupRemove("coreserv1")),
        parse_command("lb group remove coreserv1")
    )
}

#[test]
fn test_list_cmd() {
    assert_eq!(
        Some(LunchCommand::List(ListOptions::Proposals)),
        parse_command("lb list")
    )
}

#[test]
fn test_list_groups_cmd() {
    assert_eq!(
        Some(LunchCommand::List(ListOptions::Groups)),
        parse_command("lb list groups")
    )
}

#[test]
fn test_list_proposals_cmd() {
    assert_eq!(
        Some(LunchCommand::List(ListOptions::Proposals)),
        parse_command("lb list proposals")
    )
}

#[test]
fn test_propose_cmd() {
    assert_eq!(
        Some(LunchCommand::Propose("winston", "10:55", None, None)),
        parse_command("lb propose winston 10:55")
    )
}

#[test]
fn test_propose_to_group_cmd() {
    assert_eq!(
        Some(LunchCommand::Propose("winston", "10:55", Some("corserv1"), None)),
        parse_command("lb propose winston 10:55 to corserv1")
    )
}

#[test]
fn test_propose_cmd_with_dashes() {
    assert_eq!(
        Some(LunchCommand::Propose("taste-of-india", "10:55", None, None)),
        parse_command("lb propose taste-of-india 10:55")
    )
}

#[test]
fn test_propose_cmd_with_quotation_marks() {
    assert_eq!(
        Some(LunchCommand::Propose(r#""taste of india""#, "10:55", None, None)),
        parse_command(r#"lb propose "taste of india" 10:55"#)
    )
}

#[test]
fn test_propose_cmd_with_quotation_marks2() {
    assert_eq!(
        Some(LunchCommand::Propose(r#"'taste of india'"#, "10:55", None, None)),
        parse_command(r#"lb propose 'taste of india' 10:55"#)
    )
}

#[test]
fn test_propose_cmd_with_at() {
    assert_eq!(
        Some(LunchCommand::Propose(r#"'taste of india'"#, "10:55", None, None)),
        parse_command(r#"lb propose 'taste of india' at 10:55"#)
    )
}

#[test]
fn test_propose_cmd_with_at_sign() {
    assert_eq!(
        Some(LunchCommand::Propose(r#"'taste of india'"#, "10:55", None, None)),
        parse_command(r#"lb propose 'taste of india' @ 10:55"#)
    )
}

#[test]
fn test_propose_cmd_with_meeting_point() {
    assert_eq!(
        Some(LunchCommand::Propose(
            r#"'taste of india'"#,
            "11:00",
            None,
            Some((r#""u kulecniku""#, "10:42"))
        )),
        parse_command(r#"lb propose 'taste of india' @ 11:00 meet "u kulecniku" 10:42"#)
    )
}

#[test]
fn test_propose_cmd_with_meeting_point_and_group() {
    assert_eq!(
        Some(LunchCommand::Propose(
            r#"'taste of india'"#,
            "11:00",
            Some("test1"),
            Some((r#""u kulecniku""#, "10:42"))
        )),
        parse_command(r#"lb propose 'taste of india' @ 11:00 to test1 meet "u kulecniku" 10:42"#)
    )
}

#[test]
fn add_takes_precedence_over_add_user() {
    assert_eq!(Some(LunchCommand::Add(5)), parse_command("lb add 5"));
    assert_eq!(Some(LunchCommand::Add(5)), parse_command("lb add 5 to team"));
    assert_eq!(
        Some(LunchCommand::AddUser("x5", "team")),
        parse_command("lb add x5 to team")
    );
}

#[test]
fn add_reads_the_whole_number() {
    assert_eq!(Some(LunchCommand::Add(0)), parse_command("lb add 0"));
    assert_eq!(Some(LunchCommand::Add(7)), parse_command("lb add 007"));
    assert_eq!(
        Some(LunchCommand::Add(4294967295)),
        parse_command("lb add 4294967295")
    );
    assert_eq!(Some(LunchCommand::Add(12)), parse_command("lb add 12 apples"));
}

#[test]
fn add_with_too_large_a_number_is_no_command() {
    assert_eq!(None, parse_command("lb add 4294967296"));
    assert_eq!(None, parse_command("lb add 99999999999999999999999999"));
    // Not read as adding a member either.
    assert_eq!(None, parse_command("lb add 4294967296 to team"));
}

#[test]
fn add_user_needs_both_words() {
    assert_eq!(None, parse_command("lb add honza"));
    assert_eq!(None, parse_command("lb add honza to"));
    assert_eq!(None, parse_command("lb add honza to "));
    assert_eq!(None, parse_command("lb add  to team"));
    assert_eq!(
        Some(LunchCommand::AddUser("honza_2", "core")),
        parse_command("lb add honza_2 to core-team")
    );
}

#[test]
fn group_add_keeps_empty_names() {
    assert_eq!(
        Some(LunchCommand::GroupAdd("g", vec!["a", "", "b", ""])),
        parse_command("lb group add g a,,b,")
    );
    assert_eq!(
        Some(LunchCommand::GroupAdd("g", vec!["", ""])),
        parse_command("lb group add g ,")
    );
    assert_eq!(
        Some(LunchCommand::GroupAdd("g", vec!["solo"])),
        parse_command("lb group add g solo")
    );
    // The list ends at the first character that is neither a word character
    // nor a comma.
    assert_eq!(
        Some(LunchCommand::GroupAdd("g", vec!["a", "b"])),
        parse_command("lb group add g a,b c,d")
    );
}

#[test]
fn group_needs_its_arguments() {
    assert_eq!(None, parse_command("lb group"));
    assert_eq!(None, parse_command("lb group add g"));
    assert_eq!(None, parse_command("lb group add g "));
    assert_eq!(None, parse_command("lb group remove "));
    assert_eq!(None, parse_command("lb group rename a b"));
}

#[test]
fn propose_with_everything() {
    assert_eq!(
        Some(LunchCommand::Propose(
            "'x'",
            "11:00",
            Some("g"),
            Some(("\"y\"", "10:42"))
        )),
        parse_command("lb propose 'x' @ 11:00 to g meet \"y\" 10:42")
    );
}

#[test]
fn propose_separators_change_nothing() {
    let plain = parse_command("lb propose taste-of-india 10:55");
    assert_eq!(
        Some(LunchCommand::Propose("taste-of-india", "10:55", None, None)),
        plain
    );
    assert_eq!(plain, parse_command("lb propose taste-of-india at 10:55"));
    assert_eq!(plain, parse_command("lb propose taste-of-india @ 10:55"));
    assert_eq!(plain, parse_command("lb propose taste-of-india 10:55   "));
}

#[test]
fn propose_reads_a_separator_as_time_where_no_time_follows() {
    assert_eq!(
        Some(LunchCommand::Propose("x", "at", None, None)),
        parse_command("lb propose x at")
    );
    assert_eq!(
        Some(LunchCommand::Propose("x", "at", None, None)),
        parse_command("lb propose x at ")
    );
    assert_eq!(None, parse_command("lb propose x @ "));
}

#[test]
fn propose_wants_quotes_of_one_kind() {
    assert_eq!(None, parse_command("lb propose 'taste of india\" 10:55"));
    assert_eq!(None, parse_command("lb propose 'taste of india 10:55"));
    assert_eq!(None, parse_command("lb propose '' 10:55"));
}

#[test]
fn propose_without_quotes_takes_one_word_as_place() {
    assert_eq!(
        Some(LunchCommand::Propose("taste", "of", None, None)),
        parse_command("lb propose taste of india 10:55")
    );
}

#[test]
fn propose_leaves_out_what_is_incomplete() {
    assert_eq!(
        Some(LunchCommand::Propose("x", "12", None, None)),
        parse_command("lb propose x 12 to ")
    );
    assert_eq!(
        Some(LunchCommand::Propose("x", "12", Some("g"), None)),
        parse_command("lb propose x 12 to g meet y")
    );
    assert_eq!(
        Some(LunchCommand::Propose("x", "12", None, Some(("y", "11")))),
        parse_command("lb propose x 12 meet y 11")
    );
    assert_eq!(None, parse_command("lb propose x"));
    assert_eq!(None, parse_command("lb propose "));
}

#[test]
fn list_without_a_known_word_lists_proposals() {
    assert_eq!(parse_command("lb list"), parse_command("lb list proposals"));
    assert_ne!(parse_command("lb list"), parse_command("lb list groups"));
    assert_eq!(
        Some(LunchCommand::List(ListOptions::Proposals)),
        parse_command("lb list everything")
    );
}

#[test]
fn dumpstate_stands_alone() {
    assert_eq!(Some(LunchCommand::DumpState), parse_command("lb dumpstate"));
    assert_eq!(None, parse_command("lb dumpstate now"));
    assert_eq!(None, parse_command("lb dumpstat"));
}

#[test]
fn restore_takes_the_rest_of_the_line() {
    assert_eq!(
        Some(LunchCommand::RestoreState("{\"a\": [1, 2]}  ")),
        parse_command("lb restore {\"a\": [1, 2]}  ")
    );
    assert_eq!(Some(LunchCommand::RestoreState("")), parse_command("lb restore "));
    assert_eq!(None, parse_command("lb restore"));
}

#[test]
fn other_lines_are_no_commands() {
    assert_eq!(None, parse_command(""));
    assert_eq!(None, parse_command("lb"));
    assert_eq!(None, parse_command("lb "));
    assert_eq!(None, parse_command("hello"));
    assert_eq!(None, parse_command(" lb add 5"));
    assert_eq!(None, parse_command("well, lb add 5"));
    assert_eq!(None, parse_command("LB ADD 5"));
    assert_eq!(None, parse_command("lb add \u{663}"));
}

#[test]
fn a_line_is_read_the_same_way_each_time() {
    let line = "lb propose 'the pub' at 12:30 to team meet lobby 12:15";
    assert_eq!(parse_command(line), parse_command(line));
    assert_eq!(
        Some(LunchCommand::Propose(
            "'the pub'",
            "12:30",
            Some("team"),
            Some(("lobby", "12:15"))
        )),
        parse_command(line)
    );
}

#[test]
fn words_are_made_of_latin_letters_digits_and_underscores() {
    assert_eq!(
        Some(LunchCommand::GroupRemove("caf")),
        parse_command("lb group remove caf\u{e9}")
    );
    assert_eq!(None, parse_command("lb group remove \u{e9}"));
}

#[test]
fn lines_for_the_bot_start_with_lb_and_a_space() {
    assert!(is_addressed("lb "));
    assert!(is_addressed("lb dance"));
    assert!(is_addressed("lb add 5"));
    assert!(!is_addressed("lb"));
    assert!(!is_addressed(""));
    assert!(!is_addressed(" lb add 5"));
    assert!(!is_addressed("lbadd 5"));
    assert!(!is_addressed("Lb add 5"));
    for line in ["hello", "lb", " lb list", "say lb dumpstate"] {
        assert!(!is_addressed(line));
        assert_eq!(None, parse_command(line));
    }
}
