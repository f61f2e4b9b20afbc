//! Chat: which messages are commands for the bot.

use crate::text::{has_prefix, same_text};
use vstd::prelude::*;
use vstd::string::*;
use vstd::utf8::{
    decode_utf8, encode_utf8, encode_utf8_decode_utf8, encode_utf8_first_scalar,
    encode_utf8_valid_utf8, is_ascii_chars, is_ascii_chars_encode_utf8, is_char_boundary,
    pop_first_scalar,
};

verus! {

/// A text in lower case.
pub uninterp spec fn lowercase(text: Seq<char>) -> Seq<char>;

/// An ASCII letter in lower case, any other character as it is.
pub open spec fn ascii_lower(c: char) -> char {
    if 'A' <= c <= 'Z' {
        (c as u32 + 32) as char
    } else {
        c
    }
}

/// A text with its ASCII letters in lower case.
pub open spec fn ascii_lowered(text: Seq<char>) -> Seq<char> {
    Seq::new(text.len(), |i: int| ascii_lower(text[i]))
}

/// A text in lower case: `str::to_lowercase` of the standard library. The result is a function of
/// the text. Of plain ASCII text it is the text with its letters in lower case; how other
/// characters are mapped is not claimed.
#[verifier::external_body]
fn to_lower(text: &str) -> (lower: String)
    ensures
        lower@ == lowercase(text@),
        is_ascii_chars(text@) ==> lower@ == ascii_lowered(text@),
{
    text.to_lowercase()
}

/// What a message is to the bot.
#[derive(Clone, Debug, PartialEq, Eq)]
pub enum ChatVerdict {
    /// Nothing.
    Ignored,
    /// A command.
    Command(String),
    /// A command by its beginning, but the beginning ends within a character of the message.
    CutCharacter,
}

/// What a command begins with: an exclamation mark, the bot's name and a space.
pub open spec fn command_prefix(bot_name: Seq<char>) -> Seq<char> {
    "!"@ + bot_name + " "@
}

/// The text that follows the first `n` bytes.
pub open spec fn after_bytes(text: Seq<char>, n: int) -> Seq<char> {
    decode_utf8(encode_utf8(text).skip(n))
}

/// What a message is to the bot, given itself and what commands begin with in lower case. Of the
/// message, as many bytes are taken off as the beginning has.
pub open spec fn is_verdict(
    bot_name: Seq<char>,
    sender: Seq<char>,
    content: Seq<char>,
    lower_content: Seq<char>,
    lower_prefix: Seq<char>,
    verdict: ChatVerdict,
) -> bool {
    let n = encode_utf8(command_prefix(bot_name)).len() as int;
    if sender == bot_name || !lower_prefix.is_prefix_of(lower_content) {
        verdict is Ignored
    } else if is_char_boundary(encode_utf8(content), n) {
        verdict matches ChatVerdict::Command(command) && command@ == after_bytes(content, n)
    } else {
        verdict is CutCharacter
    }
}

/// What a message is to the bot, given itself and what commands begin with in lower case.
pub fn judge_message(
    bot_name: &str,
    sender: &str,
    content: &str,
    lower_content: &str,
    lower_prefix: &str,
) -> (verdict: ChatVerdict)
    ensures
        is_verdict(bot_name@, sender@, content@, lower_content@, lower_prefix@, verdict),
{
    if same_text(sender, bot_name) || !has_prefix(lower_content, lower_prefix) {
        return ChatVerdict::Ignored;
    }
    let prefix = prefix_of(bot_name);
    let n: usize = prefix.as_str().as_bytes().len();
    if content.is_char_boundary(n) {
        let (_, command) = content.split_at(n);
        proof {
            encode_utf8_decode_utf8(command@);
            assert(encode_utf8(content@).skip(n as int) =~= encode_utf8(content@).subrange(
                n as int,
                encode_utf8(content@).len() as int,
            ));
        }
        ChatVerdict::Command(command.to_owned())
    } else {
        ChatVerdict::CutCharacter
    }
}

/// What a command begins with.
fn prefix_of(bot_name: &str) -> (prefix: String)
    ensures
        prefix@ == command_prefix(bot_name@),
{
    "!".to_owned().concat(bot_name).concat(" ")
}

/// What a message is to the bot. Its own messages are nothing to it, and neither are those that
/// do not begin with an exclamation mark, its name in whatever case, and a space.
pub fn chat_command(bot_name: &str, sender: &str, content: &str) -> (verdict: ChatVerdict)
    ensures
        is_verdict(
            bot_name@,
            sender@,
            content@,
            lowercase(content@),
            lowercase(command_prefix(bot_name@)),
            verdict,
        ),
        is_ascii_chars(bot_name@) && is_ascii_chars(content@) ==> is_verdict(
            bot_name@,
            sender@,
            content@,
            ascii_lowered(content@),
            ascii_lowered(command_prefix(bot_name@)),
            verdict,
        ),
{
    let prefix = prefix_of(bot_name);
    proof {
        if is_ascii_chars(bot_name@) {
            lemma_prefix_is_ascii(bot_name@);
        }
    }
    judge_message(
        bot_name,
        sender,
        content,
        to_lower(content).as_str(),
        to_lower(prefix.as_str()).as_str(),
    )
}

/// Where the bot's name is plain ASCII, and so are as many characters at the beginning of the
/// message as commands begin with, a command is the message without those characters.
pub proof fn command_is_the_rest(
    bot_name: Seq<char>,
    sender: Seq<char>,
    content: Seq<char>,
    lower_content: Seq<char>,
    lower_prefix: Seq<char>,
    verdict: ChatVerdict,
)
    requires
        is_ascii_chars(bot_name),
        command_prefix(bot_name).len() <= content.len(),
        is_ascii_chars(content.take(command_prefix(bot_name).len() as int)),
        is_verdict(bot_name, sender, content, lower_content, lower_prefix, verdict),
    ensures
        !(verdict is CutCharacter),
        verdict matches ChatVerdict::Command(command) ==> command@ == content.skip(
            command_prefix(bot_name).len() as int,
        ),
{
    let prefix = command_prefix(bot_name);
    let n = prefix.len() as int;
    lemma_prefix_is_ascii(bot_name);
    is_ascii_chars_encode_utf8(prefix);
    lemma_bytes_after_ascii(content, n);
    encode_utf8_decode_utf8(content.skip(n));
}

/// In plain ASCII, a player's message that is made of an exclamation mark, the bot's name in
/// whatever case, a space and a command is that command.
pub proof fn addressed_messages_are_commands(
    bot_name: Seq<char>,
    sender: Seq<char>,
    spelled: Seq<char>,
    command: Seq<char>,
    verdict: ChatVerdict,
)
    requires
        is_ascii_chars(bot_name),
        is_ascii_chars(command_prefix(spelled) + command),
        ascii_lowered(spelled) == ascii_lowered(bot_name),
        sender != bot_name,
        is_verdict(
            bot_name,
            sender,
            command_prefix(spelled) + command,
            ascii_lowered(command_prefix(spelled) + command),
            ascii_lowered(command_prefix(bot_name)),
            verdict,
        ),
    ensures
        verdict matches ChatVerdict::Command(c) && c@ == command,
{
    let content = command_prefix(spelled) + command;
    let prefix = command_prefix(bot_name);
    reveal_strlit("!");
    reveal_strlit(" ");
    assert(spelled.len() == ascii_lowered(spelled).len());
    assert(bot_name.len() == ascii_lowered(bot_name).len());
    assert forall|i: int| 0 <= i < prefix.len() implies ascii_lowered(prefix)[i] == ascii_lowered(
        content,
    )[i] by {
        if 1 <= i < prefix.len() - 1 {
            assert(prefix[i] == bot_name[i - 1]);
            assert(content[i] == spelled[i - 1]);
            assert(ascii_lowered(spelled)[i - 1] == ascii_lower(spelled[i - 1]));
            assert(ascii_lowered(bot_name)[i - 1] == ascii_lower(bot_name[i - 1]));
        } else {
            assert(prefix[i] == content[i]);
        }
    }
    assert(ascii_lowered(prefix) =~= ascii_lowered(content).take(prefix.len() as int));
    assert(is_ascii_chars(content.take(prefix.len() as int))) by {
        assert forall|i: int| 0 <= i < prefix.len() implies '\0' <= #[trigger] content.take(
            prefix.len() as int,
        )[i] <= '\u{7f}' by {
            assert(content.take(prefix.len() as int)[i] == content[i]);
        }
    }
    command_is_the_rest(
        bot_name,
        sender,
        content,
        ascii_lowered(content),
        ascii_lowered(prefix),
        verdict,
    );
    assert(content.skip(prefix.len() as int) =~= command);
}

/// What a command begins with is plain ASCII where the bot's name is.
proof fn lemma_prefix_is_ascii(bot_name: Seq<char>)
    requires
        is_ascii_chars(bot_name),
    ensures
        is_ascii_chars(command_prefix(bot_name)),
{
    let prefix = command_prefix(bot_name);
    reveal_strlit("!");
    reveal_strlit(" ");
    assert forall|i: int| 0 <= i < prefix.len() implies '\0' <= #[trigger] prefix[i]
        <= '\u{7f}' by {
        if 1 <= i < prefix.len() - 1 {
            assert(prefix[i] == bot_name[i - 1]);
        }
    }
}

/// After the first `n` characters, where those are plain ASCII, lies a place between characters,
/// and the bytes from there on are those of the other characters.
proof fn lemma_bytes_after_ascii(text: Seq<char>, n: int)
    requires
        0 <= n <= text.len(),
        is_ascii_chars(text.take(n)),
    ensures
        n <= encode_utf8(text).len(),
        is_char_boundary(encode_utf8(text), n),
        encode_utf8(text).skip(n) == encode_utf8(text.skip(n)),
    decreases n,
{
    let bytes = encode_utf8(text);
    encode_utf8_valid_utf8(text);
    if n == 0 {
        assert(text.skip(0) =~= text);
    } else {
        let rest = text.drop_first();
        assert(text.take(n)[0] == text[0]);
        assert(is_ascii_chars(rest.take(n - 1))) by {
            assert forall|i: int| 0 <= i < n - 1 implies '\0' <= #[trigger] rest.take(n - 1)[i]
                <= '\u{7f}' by {
                assert(rest.take(n - 1)[i] == text.take(n)[i + 1]);
            }
        }
        lemma_bytes_after_ascii(rest, n - 1);
        encode_utf8_first_scalar(text);
        assert(pop_first_scalar(bytes) =~= encode_utf8(rest));
        assert(rest.skip(n - 1) =~= text.skip(n));
        assert(bytes.skip(n) =~= encode_utf8(rest).skip(n - 1));
    }
}

/// A capital ASCII letter stands 32 places before its small one; no other character changes.
pub proof fn capitals_become_small(c: char)
    ensures
        'A' <= c <= 'Z' ==> ascii_lower(c) as int == c as int + 32,
        !('A' <= c <= 'Z') ==> ascii_lower(c) == c,
{
}

/// The bot does not listen to itself.
pub proof fn own_messages_are_ignored(
    bot_name: Seq<char>,
    content: Seq<char>,
    lower_content: Seq<char>,
    lower_prefix: Seq<char>,
    verdict: ChatVerdict,
)
    requires
        is_verdict(bot_name, bot_name, content, lower_content, lower_prefix, verdict),
    ensures
        verdict is Ignored,
{
}

/// In plain ASCII, a message that is not ignored comes from another player and begins with an
/// exclamation mark, the letters of the bot's name, each as a capital or small, and a space; the
/// command is what follows.
pub proof fn commands_are_addressed(
    bot_name: Seq<char>,
    sender: Seq<char>,
    content: Seq<char>,
    verdict: ChatVerdict,
    i: int,
)
    requires
        is_ascii_chars(bot_name),
        is_ascii_chars(content),
        !(verdict is Ignored),
        is_verdict(
            bot_name,
            sender,
            content,
            ascii_lowered(content),
            ascii_lowered(command_prefix(bot_name)),
            verdict,
        ),
    ensures
        sender != bot_name,
        content.len() >= bot_name.len() + 2,
        content[0] == '!',
        content[bot_name.len() as int + 1] == ' ',
        0 <= i < bot_name.len() ==> content[i + 1] == bot_name[i] || ('A' <= bot_name[i] <= 'Z'
            && content[i + 1] as int == bot_name[i] as int + 32) || ('A' <= content[i + 1] <= 'Z'
            && bot_name[i] as int == content[i + 1] as int + 32),
        verdict matches ChatVerdict::Command(command) && command@ == content.skip(
            bot_name.len() as int + 2,
        ),
{
    let prefix = command_prefix(bot_name);
    let n = prefix.len() as int;
    reveal_strlit("!");
    reveal_strlit(" ");
    assert(n == bot_name.len() + 2);
    let low = ascii_lowered(content);
    assert(ascii_lowered(prefix) == low.take(n));
    assert(n <= content.len()) by {
        assert(low.len() >= ascii_lowered(prefix).len());
    }
    assert forall|j: int| 0 <= j < n implies ascii_lower(#[trigger] prefix[j]) == ascii_lower(
        content[j],
    ) by {
        assert(ascii_lowered(prefix)[j] == low.take(n)[j]);
    }
    assert(prefix[0] == '!');
    assert(prefix[n - 1] == ' ');
    capitals_become_small(content[0]);
    capitals_become_small(content[n - 1]);
    if 0 <= i < bot_name.len() {
        assert(prefix[i + 1] == bot_name[i]);
        capitals_become_small(content[i + 1]);
        capitals_become_small(bot_name[i]);
    }
    assert(is_ascii_chars(content.take(n))) by {
        assert forall|j: int| 0 <= j < n implies '\0' <= #[trigger] content.take(n)[j]
            <= '\u{7f}' by {
            assert(content.take(n)[j] == content[j]);
        }
    }
    command_is_the_rest(
        bot_name,
        sender,
        content,
        ascii_lowered(content),
        ascii_lowered(prefix),
        verdict,
    );
}

} // verus!
