use third_principles_bot::chat::{chat_command, judge_message, ChatVerdict};

fn command(text: &str) -> ChatVerdict {
    ChatVerdict::Command(text.to_owned())
}

#[test]
fn commands_begin_with_the_name_of_the_bot() {
    assert_eq!(chat_command("GoodBot", "Alice", "!GoodBot come"), command("come"));
    assert_eq!(
        chat_command("GoodBot", "Alice", "!GoodBot collect wood 5"),
        command("collect wood 5")
    );
    assert_eq!(chat_command("GoodBot", "Alice", "!GoodBot "), command(""));
}

#[test]
fn the_case_of_the_name_does_not_matter() {
    assert_eq!(chat_command("GoodBot", "Alice", "!goodbot Come"), command("Come"));
    assert_eq!(chat_command("GoodBot", "Alice", "!GOODBOT stop"), command("stop"));
}

#[test]
fn other_messages_are_ignored() {
    assert_eq!(chat_command("GoodBot", "Alice", "GoodBot come"), ChatVerdict::Ignored);
    assert_eq!(chat_command("GoodBot", "Alice", "!GoodBot"), ChatVerdict::Ignored);
    assert_eq!(chat_command("GoodBot", "Alice", "!BadBot come"), ChatVerdict::Ignored);
    assert_eq!(chat_command("GoodBot", "GoodBot", "!GoodBot come"), ChatVerdict::Ignored);
}

#[test]
fn a_beginning_may_end_within_a_character() {
    assert_eq!(
        chat_command("k", "Alice", "!\u{212A} come"),
        ChatVerdict::CutCharacter
    );
}

#[test]
fn a_message_is_judged_by_its_lower_case() {
    assert_eq!(
        judge_message("Bot", "Alice", "!BOT stop", "!bot stop", "!bot "),
        command("stop")
    );
    assert_eq!(
        judge_message("Bot", "Alice", "!BOT stop", "!BOT stop", "!bot "),
        ChatVerdict::Ignored
    );
    assert_eq!(
        judge_message("Bot", "Bot", "!bot stop", "!bot stop", "!bot "),
        ChatVerdict::Ignored
    );
}

#[test]
fn a_command_need_not_be_ascii() {
    assert_eq!(
        chat_command("GoodBot", "Alice", "!gOODbOT build a caf\u{e9}"),
        command("build a caf\u{e9}")
    );
}
