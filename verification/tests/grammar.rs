use third_principles_bot::grammar::{
    parse_command, refusal, Command, SyntaxError, SyntaxErrorKind,
};

fn reply(line: &str) -> String {
    match parse_command(line) {
        Ok(command) => panic!("{line:?} is a command: {command:?}"),
        Err(error) => refusal(line, error),
    }
}

fn collect(target: &str, count: Option<i32>) -> Result<Command, SyntaxError> {
    Ok(Command::Collect {
        target: target.to_owned(),
        count,
    })
}

fn wrong(kind: SyntaxErrorKind, cursor: usize) -> Result<Command, SyntaxError> {
    Err(SyntaxError { kind, cursor })
}

#[test]
fn commands_without_arguments_stand_alone() {
    assert_eq!(parse_command("come"), Ok(Command::Come));
    assert_eq!(parse_command("stop"), Ok(Command::Stop));
    assert_eq!(
        parse_command("come "),
        wrong(SyntaxErrorKind::UnknownArgument, 4)
    );
    assert_eq!(
        parse_command("stop now"),
        wrong(SyntaxErrorKind::UnknownArgument, 5)
    );
}

#[test]
fn build_takes_the_rest_of_the_line() {
    assert_eq!(
        parse_command("build dirt house"),
        Ok(Command::Build {
            description: "dirt house".to_owned()
        })
    );
    assert_eq!(
        parse_command("build  größeres Haus "),
        Ok(Command::Build {
            description: " größeres Haus ".to_owned()
        })
    );
    assert_eq!(
        parse_command("build"),
        wrong(SyntaxErrorKind::UnknownCommand, 5)
    );
    assert_eq!(
        parse_command("build "),
        wrong(SyntaxErrorKind::UnknownArgument, 5)
    );
}

#[test]
fn collect_takes_a_word_and_an_integer() {
    assert_eq!(parse_command("collect wood"), collect("wood", None));
    assert_eq!(parse_command("collect oak_log 4"), collect("oak_log", Some(4)));
    assert_eq!(parse_command("collect wood -7"), collect("wood", Some(-7)));
    assert_eq!(parse_command("collect wood 007"), collect("wood", Some(7)));
    assert_eq!(
        parse_command("collect wood 2147483647"),
        collect("wood", Some(i32::MAX))
    );
    assert_eq!(
        parse_command("collect wood -2147483648"),
        collect("wood", Some(i32::MIN))
    );
    assert_eq!(parse_command("collect  5"), collect("", Some(5)));
}

#[test]
fn collect_tells_what_is_wrong() {
    assert_eq!(
        parse_command("collect"),
        wrong(SyntaxErrorKind::UnknownCommand, 7)
    );
    assert_eq!(
        parse_command("collect "),
        wrong(SyntaxErrorKind::UnknownArgument, 7)
    );
    assert_eq!(
        parse_command("collect minecraft:dirt"),
        wrong(SyntaxErrorKind::ExpectedSeparator, 17)
    );
    assert_eq!(
        parse_command("collect wood "),
        wrong(SyntaxErrorKind::UnknownArgument, 12)
    );
    assert_eq!(
        parse_command("collect wood many"),
        wrong(SyntaxErrorKind::ExpectedInteger, 13)
    );
    assert_eq!(
        parse_command("collect wood 1.5"),
        wrong(SyntaxErrorKind::InvalidInteger, 13)
    );
    assert_eq!(
        parse_command("collect wood 2147483648"),
        wrong(SyntaxErrorKind::InvalidInteger, 13)
    );
    assert_eq!(
        parse_command("collect wood 5x"),
        wrong(SyntaxErrorKind::ExpectedSeparator, 14)
    );
    assert_eq!(
        parse_command("collect wood 5 "),
        wrong(SyntaxErrorKind::UnknownArgument, 14)
    );
    assert_eq!(
        parse_command("collect wood 5 6"),
        wrong(SyntaxErrorKind::UnknownArgument, 15)
    );
}

#[test]
fn unknown_commands_are_wrong_at_their_start() {
    assert_eq!(parse_command(""), wrong(SyntaxErrorKind::UnknownCommand, 0));
    assert_eq!(parse_command(" come"), wrong(SyntaxErrorKind::UnknownCommand, 0));
    assert_eq!(parse_command("Come"), wrong(SyntaxErrorKind::UnknownCommand, 0));
    assert_eq!(parse_command("comet"), wrong(SyntaxErrorKind::UnknownCommand, 0));
    assert_eq!(parse_command("größe x"), wrong(SyntaxErrorKind::UnknownCommand, 0));
}

#[test]
fn replies_show_where_the_line_is_wrong() {
    assert_eq!(
        reply("dance"),
        "Unknown command (Unknown command at position 0: <--[HERE])"
    );
    assert_eq!(
        reply("come here"),
        "Unknown command (Incorrect argument for command at position 5: come <--[HERE])"
    );
    assert_eq!(
        reply("collect wood!"),
        "Unknown command (Expected whitespace to end one argument, but found trailing data \
         at position 12: ...llect wood<--[HERE])"
    );
    assert_eq!(
        reply("collect wood many"),
        "Unknown command (Could not parse command: Expected Integer \
         at position 13: ...lect wood <--[HERE] at position 13: ...lect wood <--[HERE])"
    );
    assert_eq!(
        reply("collect w 1-2"),
        "Unknown command (Could not parse command: Invalid Integer '1-2' \
         at position 10: collect w <--[HERE] at position 10: collect w <--[HERE])"
    );
}

#[test]
fn written_counts_are_read_back() {
    for count in [0, 1, -1, 9, 10, 99, 100, 12345, -98765, i32::MAX, i32::MIN] {
        assert_eq!(
            parse_command(&format!("collect wood {count}")),
            collect("wood", Some(count))
        );
    }
}
