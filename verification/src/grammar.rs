//! The grammar of the bot's commands, and what is said of a line that is none.

use crate::text::{
    all_digits, append_decimal, decimal, decimal_reads_back, digits_value, is_digit,
    lemma_digits_grow, same_text, signed_decimal,
};
use vstd::prelude::*;
use vstd::string::*;
use vstd::utf8::is_ascii_chars;

verus! {

/// A command to the bot.
#[derive(Clone, Debug, PartialEq, Eq)]
pub enum Command {
    Build { description: String },
    Collect { target: String, count: Option<i32> },
    Come,
    Stop,
}

/// What is wrong with a line.
#[derive(Clone, Copy, Debug, PartialEq, Eq, Structural)]
pub enum SyntaxErrorKind {
    UnknownCommand,
    UnknownArgument,
    ExpectedSeparator,
    ExpectedInteger,
    InvalidInteger,
}

/// What is wrong with a line, and where.
#[derive(Clone, Copy, Debug, PartialEq, Eq, Structural)]
pub struct SyntaxError {
    pub kind: SyntaxErrorKind,
    pub cursor: usize,
}

/// What a line is.
pub enum Reading {
    Build(Seq<char>),
    Collect(Seq<char>, Option<int>),
    Come,
    Stop,
    Wrong(SyntaxErrorKind, int),
}

/// The characters of one run.
#[derive(Clone, Copy, Debug, PartialEq, Eq, Structural)]
pub enum Run {
    /// All but spaces.
    Token,
    /// Letters, digits, and `_`, `-`, `.` and `+`.
    Word,
    /// Digits, `.` and `-`.
    Number,
}

/// Whether a character belongs to a run.
pub open spec fn belongs(c: char, run: Run) -> bool {
    match run {
        Run::Token => c != ' ',
        Run::Word => is_digit(c) || ('A' <= c && c <= 'Z') || ('a' <= c && c <= 'z') || c == '_'
            || c == '-' || c == '.' || c == '+',
        Run::Number => is_digit(c) || c == '.' || c == '-',
    }
}

/// Where the run that begins at `from` ends.
pub open spec fn run_end(line: Seq<char>, from: int, run: Run) -> int
    decreases line.len() - from,
{
    if 0 <= from < line.len() && belongs(line[from], run) {
        run_end(line, from + 1, run)
    } else {
        from
    }
}

/// The integer that a text of digits, with a minus sign in front or not, stands for; `None` for
/// any other text, and for an integer that an `i32` does not hold.
pub open spec fn integer_value(text: Seq<char>) -> Option<int> {
    let negative = text.len() > 0 && text[0] == '-';
    let digits = if negative {
        text.skip(1)
    } else {
        text
    };
    let value = if negative {
        -digits_value(digits)
    } else {
        digits_value(digits)
    };
    if digits.len() > 0 && all_digits(digits) && i32::MIN <= value <= i32::MAX {
        Some(value)
    } else {
        None
    }
}

/// The rest of a command that takes no arguments and whose name has `n` characters.
pub open spec fn read_nothing(line: Seq<char>, n: int, command: Reading) -> Reading {
    if line.len() == n {
        command
    } else if line.len() == n + 1 {
        Reading::Wrong(SyntaxErrorKind::UnknownArgument, n)
    } else {
        Reading::Wrong(SyntaxErrorKind::UnknownArgument, n + 1)
    }
}

/// The rest of `build`: all that follows is the description.
pub open spec fn read_build(line: Seq<char>) -> Reading {
    if line.len() == 5 {
        Reading::Wrong(SyntaxErrorKind::UnknownCommand, 5)
    } else if line.len() == 6 {
        Reading::Wrong(SyntaxErrorKind::UnknownArgument, 5)
    } else {
        Reading::Build(line.skip(6))
    }
}

/// The rest of `collect`: a word, and an integer after it or not.
pub open spec fn read_collect(line: Seq<char>) -> Reading {
    let n = line.len() as int;
    let word = run_end(line, 8, Run::Word);
    let end = run_end(line, word + 1, Run::Number);
    let number = integer_value(line.subrange(word + 1, end));
    if n == 7 {
        Reading::Wrong(SyntaxErrorKind::UnknownCommand, 7)
    } else if n == 8 {
        Reading::Wrong(SyntaxErrorKind::UnknownArgument, 7)
    } else if word < n && line[word] != ' ' {
        Reading::Wrong(SyntaxErrorKind::ExpectedSeparator, word)
    } else if word == n {
        Reading::Collect(line.subrange(8, word), None)
    } else if word + 1 == n {
        Reading::Wrong(SyntaxErrorKind::UnknownArgument, word)
    } else if end == word + 1 {
        Reading::Wrong(SyntaxErrorKind::ExpectedInteger, word + 1)
    } else if number is None {
        Reading::Wrong(SyntaxErrorKind::InvalidInteger, word + 1)
    } else if end < n && line[end] != ' ' {
        Reading::Wrong(SyntaxErrorKind::ExpectedSeparator, end)
    } else if end == n {
        Reading::Collect(line.subrange(8, word), number)
    } else if end + 1 == n {
        Reading::Wrong(SyntaxErrorKind::UnknownArgument, end)
    } else {
        Reading::Wrong(SyntaxErrorKind::UnknownArgument, end + 1)
    }
}

/// What a line is: the characters up to the first space name the command.
pub open spec fn read_line(line: Seq<char>) -> Reading {
    let name = line.take(run_end(line, 0, Run::Token));
    if name == "come"@ {
        read_nothing(line, 4, Reading::Come)
    } else if name == "stop"@ {
        read_nothing(line, 4, Reading::Stop)
    } else if name == "build"@ {
        read_build(line)
    } else if name == "collect"@ {
        read_collect(line)
    } else {
        Reading::Wrong(SyntaxErrorKind::UnknownCommand, 0)
    }
}

/// A command, or what is wrong with the line, is what the line is.
pub open spec fn is_reading(result: Result<Command, SyntaxError>, reading: Reading) -> bool {
    match reading {
        Reading::Build(text) => result matches Ok(Command::Build { description }) && description@
            == text,
        Reading::Collect(word, number) => result matches Ok(Command::Collect { target, count })
            && target@ == word && match number {
            None => count is None,
            Some(n) => count matches Some(c) && c == n,
        },
        Reading::Come => result == Ok::<Command, SyntaxError>(Command::Come),
        Reading::Stop => result == Ok::<Command, SyntaxError>(Command::Stop),
        Reading::Wrong(kind, cursor) => result matches Err(error) && error.kind == kind
            && error.cursor == cursor,
    }
}

fn belongs_to(c: char, run: Run) -> (r: bool)
    ensures
        r == belongs(c, run),
{
    let digit: bool = '0' <= c && c <= '9';
    match run {
        Run::Token => c != ' ',
        Run::Word => digit || ('A' <= c && c <= 'Z') || ('a' <= c && c <= 'z') || c == '_' || c
            == '-' || c == '.' || c == '+',
        Run::Number => digit || c == '.' || c == '-',
    }
}

/// Where the run that begins at `from` ends.
fn end_of_run(line: &str, n: usize, from: usize, run: Run) -> (end: usize)
    requires
        n == line@.len(),
        from <= n,
    ensures
        end == run_end(line@, from as int, run),
        from <= end <= n,
{
    let mut end: usize = from;
    while end < n && belongs_to(line.get_char(end), run)
        invariant
            n == line@.len(),
            from <= end <= n,
            run_end(line@, from as int, run) == run_end(line@, end as int, run),
        decreases n - end,
    {
        end = end + 1;
    }
    end
}

/// The value of a digit.
fn digit_of(c: char) -> (d: i64)
    requires
        is_digit(c),
    ensures
        d == c as int - '0' as int,
{
    c as i64 - '0' as i64
}

/// Reads an integer.
fn read_integer(text: &str) -> (value: Option<i32>)
    ensures
        value is Some <==> integer_value(text@) is Some,
        value matches Some(v) ==> integer_value(text@) == Some(v as int),
{
    let n: usize = text.unicode_len();
    let negative: bool = n > 0 && text.get_char(0) == '-';
    let start: usize = if negative {
        1
    } else {
        0
    };
    let ghost digits = if negative {
        text@.skip(1)
    } else {
        text@
    };
    if start == n {
        return None;
    }
    let mut value: i64 = 0;
    let mut i: usize = start;
    assert(digits.take(0) =~= Seq::<char>::empty());
    while i < n
        invariant
            n == text@.len(),
            start <= i <= n,
            start == if negative {
                1int
            } else {
                0int
            },
            negative == (n > 0 && text@[0] == '-'),
            digits == if negative {
                text@.skip(1)
            } else {
                text@
            },
            digits.len() == n - start,
            start < n,
            all_digits(digits.take(i - start)),
            value == digits_value(digits.take(i - start)),
            0 <= value <= 0x8000_0000,
        decreases n - i,
    {
        let c: char = text.get_char(i);
        let ghost k = i - start;
        assert(c == digits[k]);
        if !('0' <= c && c <= '9') {
            assert(!is_digit(digits[k]));
            return None;
        }
        value = 10 * value + digit_of(c);
        proof {
            let seen = digits.take(k + 1);
            assert(seen.drop_last() =~= digits.take(k));
            assert(seen.last() == c);
            assert(all_digits(seen)) by {
                assert forall|j: int| 0 <= j < seen.len() implies is_digit(#[trigger] seen[j]) by {
                    if j < k {
                        assert(is_digit(digits.take(k)[j]));
                    }
                }
            }
        }
        if value > 0x8000_0000 {
            proof {
                if all_digits(digits) {
                    lemma_digits_grow(digits, k + 1);
                }
            }
            return None;
        }
        i = i + 1;
    }
    assert(digits.take(n - start) =~= digits);
    if negative {
        Some((-value) as i32)
    } else if value <= i32::MAX as i64 {
        Some(value as i32)
    } else {
        None
    }
}

fn wrong(kind: SyntaxErrorKind, cursor: usize) -> (result: Result<Command, SyntaxError>)
    ensures
        is_reading(result, Reading::Wrong(kind, cursor as int)),
{
    Err(SyntaxError { kind, cursor })
}

/// Reads the arguments of `collect`.
fn parse_collect(line: &str, n: usize) -> (result: Result<Command, SyntaxError>)
    requires
        n == line@.len(),
        n >= 7,
    ensures
        is_reading(result, read_collect(line@)),
{
    if n == 7 {
        return wrong(SyntaxErrorKind::UnknownCommand, 7);
    }
    if n == 8 {
        return wrong(SyntaxErrorKind::UnknownArgument, 7);
    }
    let word: usize = end_of_run(line, n, 8, Run::Word);
    if word < n && line.get_char(word) != ' ' {
        return wrong(SyntaxErrorKind::ExpectedSeparator, word);
    }
    let target = line.substring_char(8, word);
    if word == n {
        return Ok(Command::Collect { target: target.to_owned(), count: None });
    }
    if word + 1 == n {
        return wrong(SyntaxErrorKind::UnknownArgument, word);
    }
    let start: usize = word + 1;
    let end: usize = end_of_run(line, n, start, Run::Number);
    if end == start {
        return wrong(SyntaxErrorKind::ExpectedInteger, start);
    }
    match read_integer(line.substring_char(start, end)) {
        None => wrong(SyntaxErrorKind::InvalidInteger, start),
        Some(count) => {
            if end < n && line.get_char(end) != ' ' {
                wrong(SyntaxErrorKind::ExpectedSeparator, end)
            } else if end == n {
                Ok(Command::Collect { target: target.to_owned(), count: Some(count) })
            } else if end + 1 == n {
                wrong(SyntaxErrorKind::UnknownArgument, end)
            } else {
                wrong(SyntaxErrorKind::UnknownArgument, end + 1)
            }
        },
    }
}

/// A line that can be read: one with a space, or of plain ASCII.
pub open spec fn is_readable(line: Seq<char>) -> bool {
    line.contains(' ') || is_ascii_chars(line)
}

/// Reads a line as a command.
pub fn parse_command(line: &str) -> (result: Result<Command, SyntaxError>)
    requires
        is_readable(line@),
    ensures
        is_reading(result, read_line(line@)),
        result matches Err(error) ==> error.cursor <= line@.len(),
{
    proof {
        errors_lie_within_the_line(line@);
        reveal_strlit("come");
        reveal_strlit("stop");
        reveal_strlit("build");
        reveal_strlit("collect");
    }
    let n: usize = line.unicode_len();
    let end: usize = end_of_run(line, n, 0, Run::Token);
    let name = line.substring_char(0, end);
    assert(name@ =~= line@.take(end as int));
    let come: bool = same_text(name, "come");
    if come || same_text(name, "stop") {
        if n > 4 {
            return wrong(
                SyntaxErrorKind::UnknownArgument,
                if n == 5 {
                    4
                } else {
                    5
                },
            );
        }
        return if come {
            Ok(Command::Come)
        } else {
            Ok(Command::Stop)
        };
    }
    if same_text(name, "build") {
        if n == 5 {
            return wrong(SyntaxErrorKind::UnknownCommand, 5);
        }
        if n == 6 {
            return wrong(SyntaxErrorKind::UnknownArgument, 5);
        }
        let description = line.substring_char(6, n);
        assert(description@ =~= line@.skip(6));
        return Ok(Command::Build { description: description.to_owned() });
    }
    if same_text(name, "collect") {
        return parse_collect(line, n);
    }
    wrong(SyntaxErrorKind::UnknownCommand, 0)
}

/// Where something is wrong: the place, and up to ten characters in front of it.
pub open spec fn position_text(line: Seq<char>, cursor: int) -> Seq<char> {
    let context = if cursor > 10 {
        "..."@ + line.subrange(cursor - 10, cursor)
    } else {
        line.take(cursor)
    };
    " at position "@ + decimal(cursor) + ": "@ + context + "<--[HERE]"@
}

/// What is wrong with a line.
pub open spec fn error_text(line: Seq<char>, error: SyntaxError) -> Seq<char> {
    let cursor = error.cursor as int;
    let position = position_text(line, cursor);
    let what = match error.kind {
        SyntaxErrorKind::UnknownCommand => "Unknown command"@,
        SyntaxErrorKind::UnknownArgument => "Incorrect argument for command"@,
        SyntaxErrorKind::ExpectedSeparator =>
            "Expected whitespace to end one argument, but found trailing data"@,
        SyntaxErrorKind::ExpectedInteger => "Could not parse command: Expected Integer"@
            + position,
        SyntaxErrorKind::InvalidInteger => "Could not parse command: Invalid Integer '"@
            + line.subrange(cursor, run_end(line, cursor, Run::Number)) + "'"@ + position,
    };
    what + position
}

fn append_position(out: &mut String, line: &str, cursor: usize)
    requires
        cursor <= line@.len(),
    ensures
        final(out)@ == old(out)@ + position_text(line@, cursor as int),
{
    let ghost before = out@;
    out.append(" at position ");
    append_decimal(out, cursor as u64);
    out.append(": ");
    if cursor > 10 {
        out.append("...");
        out.append(line.substring_char(cursor - 10, cursor));
    } else {
        let head = line.substring_char(0, cursor);
        assert(head@ =~= line@.take(cursor as int));
        out.append(head);
    }
    out.append("<--[HERE]");
    assert(out@ =~= before + position_text(line@, cursor as int));
}

/// What is wrong with a line.
pub fn describe_error(line: &str, error: SyntaxError) -> (text: String)
    requires
        error.cursor <= line@.len(),
    ensures
        text@ == error_text(line@, error),
{
    let cursor: usize = error.cursor;
    let mut text = match error.kind {
        SyntaxErrorKind::UnknownCommand => "Unknown command".to_owned(),
        SyntaxErrorKind::UnknownArgument => "Incorrect argument for command".to_owned(),
        SyntaxErrorKind::ExpectedSeparator =>
            "Expected whitespace to end one argument, but found trailing data".to_owned(),
        SyntaxErrorKind::ExpectedInteger => {
            let mut inner = "Could not parse command: Expected Integer".to_owned();
            append_position(&mut inner, line, cursor);
            inner
        },
        SyntaxErrorKind::InvalidInteger => {
            let mut inner = "Could not parse command: Invalid Integer '".to_owned();
            let end: usize = end_of_run(line, line.unicode_len(), cursor, Run::Number);
            inner.append(line.substring_char(cursor, end));
            inner.append("'");
            append_position(&mut inner, line, cursor);
            inner
        },
    };
    append_position(&mut text, line, cursor);
    text
}

/// The answer to a line that is no command.
pub fn refusal(line: &str, error: SyntaxError) -> (reply: String)
    requires
        error.cursor <= line@.len(),
    ensures
        reply@ == "Unknown command ("@ + error_text(line@, error) + ")"@,
{
    "Unknown command (".to_owned().concat(describe_error(line, error).as_str()).concat(")")
}

/// What is wrong with a line is wrong at a place of it.
pub proof fn errors_lie_within_the_line(line: Seq<char>)
    ensures
        read_line(line) matches Reading::Wrong(_, cursor) ==> 0 <= cursor <= line.len(),
{
    reveal_strlit("come");
    reveal_strlit("stop");
    reveal_strlit("build");
    reveal_strlit("collect");
    lemma_run_end(line, 0, Run::Token);
    if line.len() >= 8 {
        lemma_run_end(line, 8, Run::Word);
        let word = run_end(line, 8, Run::Word);
        if word < line.len() {
            lemma_run_end(line, word + 1, Run::Number);
        }
    }
    let name = line.take(run_end(line, 0, Run::Token));
    assert(name.len() <= line.len());
}

/// A run ends within the line, at the end of it or at a character that does not belong.
pub proof fn lemma_run_end(line: Seq<char>, from: int, run: Run)
    requires
        0 <= from <= line.len(),
    ensures
        from <= run_end(line, from, run) <= line.len(),
        run_end(line, from, run) < line.len() ==> !belongs(line[run_end(line, from, run)], run),
        forall|i: int| from <= i < run_end(line, from, run) ==> belongs(#[trigger] line[i], run),
    decreases line.len() - from,
{
    if from < line.len() && belongs(line[from], run) {
        lemma_run_end(line, from + 1, run);
    }
}

/// A line of the form `build`, a space and a description that is not empty asks for just that
/// description.
pub proof fn build_lines_are_read(description: Seq<char>)
    requires
        description.len() > 0,
    ensures
        read_line("build "@ + description) == Reading::Build(description),
{
    reveal_strlit("come");
    reveal_strlit("stop");
    reveal_strlit("build");
    reveal_strlit("collect");
    reveal_strlit("build ");
    let line = "build "@ + description;
    reveal_with_fuel(run_end, 7);
    assert(line[0] == 'b' && line[1] == 'u' && line[2] == 'i' && line[3] == 'l' && line[4] == 'd'
        && line[5] == ' ');
    assert(run_end(line, 0, Run::Token) == 5);
    assert(line.take(5) =~= "build"@);
    assert(line.skip(6) =~= description);
}

/// A line of the form `collect`, a space, a word, a space and an integer in decimal asks for just
/// that many of the word; without the integer, for the word alone.
pub proof fn collect_lines_are_read(word: Seq<char>, count: i32)
    requires
        word.len() > 0,
        forall|i: int| 0 <= i < word.len() ==> belongs(#[trigger] word[i], Run::Word),
    ensures
        read_line("collect "@ + word) == Reading::Collect(word, None),
        read_line("collect "@ + word + " "@ + signed_decimal(count as int))
            == Reading::Collect(word, Some(count as int)),
{
    reveal_strlit("come");
    reveal_strlit("stop");
    reveal_strlit("build");
    reveal_strlit("collect");
    reveal_strlit("collect ");
    reveal_strlit(" ");
    let bare = "collect "@ + word;
    lemma_collect_name(bare, word);
    lemma_run_from(bare, 8, bare.len() as int, Run::Word);
    assert(bare.subrange(8, bare.len() as int) =~= word);
    assert("collect"@.len() == 7 && "build"@.len() == 5 && "come"@.len() == 4 && "stop"@.len() == 4);
    assert(read_line(bare) == read_collect(bare));
    let number = signed_decimal(count as int);
    lemma_decimal_is_number(count as int);
    let line = "collect "@ + word + " "@ + number;
    let end = 8 + word.len() as int;
    assert(line.take(end) =~= bare);
    assert forall|i: int| 0 <= i < bare.len() implies line[i] == bare[i] by {
        assert(line.take(end)[i] == bare[i]);
    }
    lemma_collect_name(line, word);
    assert(line[end] == ' ');
    assert forall|i: int| 8 <= i < end implies belongs(#[trigger] line[i], Run::Word) by {
        assert(line[i] == word[i - 8]);
    }
    lemma_run_from(line, 8, end, Run::Word);
    assert forall|i: int| end + 1 <= i < line.len() implies belongs(
        #[trigger] line[i],
        Run::Number,
    ) by {
        assert(line[i] == number[i - end - 1]);
    }
    lemma_run_from(line, end + 1, line.len() as int, Run::Number);
    assert(line.subrange(8, end) =~= word);
    assert(line.subrange(end + 1, line.len() as int) =~= number);
    assert(read_line(line) == read_collect(line));
}

/// A line that begins with `collect` and a space names that command.
proof fn lemma_collect_name(line: Seq<char>, word: Seq<char>)
    requires
        line.len() >= 8,
        forall|i: int| 0 <= i < 8 ==> line[i] == ("collect "@)[i],
    ensures
        line.take(run_end(line, 0, Run::Token)) == "collect"@,
{
    reveal_strlit("collect ");
    reveal_strlit("collect");
    reveal_with_fuel(run_end, 9);
    assert(line[0] == 'c' && line[1] == 'o' && line[2] == 'l' && line[3] == 'l' && line[4] == 'e'
        && line[5] == 'c' && line[6] == 't' && line[7] == ' ');
    assert(run_end(line, 0, Run::Token) == 7);
    assert(line.take(7) =~= "collect"@);
}

/// A run ends where its characters end.
proof fn lemma_run_from(line: Seq<char>, from: int, end: int, run: Run)
    requires
        0 <= from <= end <= line.len(),
        forall|i: int| from <= i < end ==> belongs(#[trigger] line[i], run),
        end < line.len() ==> !belongs(line[end], run),
    ensures
        run_end(line, from, run) == end,
    decreases end - from,
{
    if from < end {
        assert(belongs(line[from], run));
        lemma_run_from(line, from + 1, end, run);
    }
}

/// An integer in decimal is read back as that integer.
proof fn lemma_decimal_is_number(n: int)
    requires
        i32::MIN <= n <= i32::MAX,
    ensures
        signed_decimal(n).len() > 0,
        forall|i: int|
            0 <= i < signed_decimal(n).len() ==> belongs(
                #[trigger] signed_decimal(n)[i],
                Run::Number,
            ),
        integer_value(signed_decimal(n)) == Some(n),
{
    let text = signed_decimal(n);
    if n < 0 {
        decimal_reads_back(-n);
        assert(text.skip(1) =~= decimal(-n));
        assert forall|i: int| 0 <= i < text.len() implies belongs(
            #[trigger] text[i],
            Run::Number,
        ) by {
            if i > 0 {
                assert(is_digit(decimal(-n)[i - 1]));
            }
        }
    } else {
        decimal_reads_back(n);
        assert(is_digit(decimal(n)[0]));
    }
}

/// A name ends with the first space; a word is of ASCII letters, digits and four signs, a number of
/// digits, dots and minus signs.
pub proof fn runs_are_told_by_their_characters(c: char)
    ensures
        belongs(c, Run::Token) <==> c != ' ',
        belongs(c, Run::Word) <==> '0' <= c <= '9' || 'A' <= c <= 'Z' || 'a' <= c <= 'z' || c == '_'
            || c == '-' || c == '.' || c == '+',
        belongs(c, Run::Number) <==> '0' <= c <= '9' || c == '.' || c == '-',
{
}

/// A line whose first space follows a name, or that is a name, has that name.
proof fn lemma_name(line: Seq<char>, name: Seq<char>)
    requires
        name.len() <= line.len(),
        !name.contains(' '),
        forall|i: int| 0 <= i < name.len() ==> line[i] == name[i],
        name.len() < line.len() ==> line[name.len() as int] == ' ',
    ensures
        line.take(run_end(line, 0, Run::Token)) == name,
{
    assert forall|i: int| 0 <= i < name.len() implies belongs(#[trigger] line[i], Run::Token) by {
        assert(name.contains(name[i]));
    }
    lemma_run_from(line, 0, name.len() as int, Run::Token);
    assert(line.take(name.len() as int) =~= name);
}

/// The names of the commands, letter by letter.
proof fn lemma_names()
    ensures
        "come"@ == seq!['c', 'o', 'm', 'e'],
        "stop"@ == seq!['s', 't', 'o', 'p'],
        "build"@ == seq!['b', 'u', 'i', 'l', 'd'],
        "collect"@ == seq!['c', 'o', 'l', 'l', 'e', 'c', 't'],
        " "@ == seq![' '],
        !"come"@.contains(' '),
        !"stop"@.contains(' '),
        !"build"@.contains(' '),
        !"collect"@.contains(' '),
        "come"@ != "stop"@,
{
    reveal_strlit("come");
    reveal_strlit("stop");
    reveal_strlit("build");
    reveal_strlit("collect");
    reveal_strlit(" ");
    assert("come"@ =~= seq!['c', 'o', 'm', 'e']);
    assert("stop"@ =~= seq!['s', 't', 'o', 'p']);
    assert("build"@ =~= seq!['b', 'u', 'i', 'l', 'd']);
    assert("collect"@ =~= seq!['c', 'o', 'l', 'l', 'e', 'c', 't']);
    assert(" "@ =~= seq![' ']);
    assert("come"@[0] != "stop"@[0]);
}

/// The bot comes and stops at a word. With anything after it, that is wrong: at the space where
/// nothing follows it, and behind the space otherwise.
pub proof fn plain_commands_stand_alone(rest: Seq<char>)
    ensures
        read_line("come"@) == Reading::Come,
        read_line("stop"@) == Reading::Stop,
        read_line("come"@ + " "@ + rest) == Reading::Wrong(
            SyntaxErrorKind::UnknownArgument,
            if rest.len() == 0 {
                4
            } else {
                5
            },
        ),
        read_line("stop"@ + " "@ + rest) == Reading::Wrong(
            SyntaxErrorKind::UnknownArgument,
            if rest.len() == 0 {
                4
            } else {
                5
            },
        ),
{
    lemma_names();
    lemma_name("come"@, "come"@);
    lemma_name("stop"@, "stop"@);
    lemma_name("come"@ + " "@ + rest, "come"@);
    lemma_name("stop"@ + " "@ + rest, "stop"@);
}

/// What to build and what to collect must be said: without it the name is no command, and a space
/// behind the name does not help.
pub proof fn arguments_cannot_be_left_out()
    ensures
        read_line("build"@) == Reading::Wrong(SyntaxErrorKind::UnknownCommand, 5),
        read_line("build"@ + " "@) == Reading::Wrong(SyntaxErrorKind::UnknownArgument, 5),
        read_line("collect"@) == Reading::Wrong(SyntaxErrorKind::UnknownCommand, 7),
        read_line("collect"@ + " "@) == Reading::Wrong(SyntaxErrorKind::UnknownArgument, 7),
{
    lemma_names();
    assert("build"@.len() == 5 && "collect"@.len() == 7 && "come"@.len() == 4 && "stop"@.len() == 4);
    lemma_name("build"@, "build"@);
    lemma_name("collect"@, "collect"@);
    lemma_name("build"@ + " "@, "build"@);
    lemma_name("collect"@ + " "@, "collect"@);
}

/// A line that neither is one of the four names nor begins with one and a space is no command.
pub proof fn other_names_are_unknown(line: Seq<char>)
    requires
        line != "come"@ && !("come"@ + " "@).is_prefix_of(line),
        line != "stop"@ && !("stop"@ + " "@).is_prefix_of(line),
        line != "build"@ && !("build"@ + " "@).is_prefix_of(line),
        line != "collect"@ && !("collect"@ + " "@).is_prefix_of(line),
    ensures
        read_line(line) == Reading::Wrong(SyntaxErrorKind::UnknownCommand, 0),
{
    lemma_names();
    let end = run_end(line, 0, Run::Token);
    lemma_run_end(line, 0, Run::Token);
    let name = line.take(end);
    if end < line.len() {
        assert(line[end] == ' ');
        assert(line.take(end + 1) =~= name + " "@);
        assert((name + " "@).is_prefix_of(line));
    } else {
        assert(name =~= line);
    }
}

/// A line of `collect`, a space, a word and something that does not begin with a character of a
/// word is read by its word.
proof fn lemma_collect_line(word: Seq<char>, tail: Seq<char>)
    requires
        forall|i: int| 0 <= i < word.len() ==> belongs(#[trigger] word[i], Run::Word),
        tail.len() > 0 ==> !belongs(tail[0], Run::Word),
    ensures
        ({
            let line = "collect "@ + word + tail;
            &&& line.len() == 8 + word.len() + tail.len()
            &&& read_line(line) == read_collect(line)
            &&& run_end(line, 8, Run::Word) == 8 + word.len()
            &&& line.subrange(8, 8 + word.len() as int) == word
            &&& forall|i: int|
                0 <= i < tail.len() ==> line[#[trigger] (8 + word.len() as int + i)] == tail[i]
        }),
{
    reveal_strlit("collect ");
    lemma_names();
    let line = "collect "@ + word + tail;
    lemma_collect_name(line, word);
    assert("collect"@.len() == 7 && "build"@.len() == 5 && "come"@.len() == 4 && "stop"@.len() == 4);
    assert forall|i: int| 8 <= i < 8 + word.len() implies belongs(
        #[trigger] line[i],
        Run::Word,
    ) by {
        assert(line[i] == word[i - 8]);
    }
    if tail.len() > 0 {
        assert(line[8 + word.len() as int] == tail[0]);
    }
    lemma_run_from(line, 8, 8 + word.len() as int, Run::Word);
    assert(line.subrange(8, 8 + word.len() as int) =~= word);
}

/// Where a word to collect is followed by something other than a space and a number, the line is
/// wrong, and just there: at a sign that does not belong to a word, at a space that ends the line,
/// or behind the space.
pub proof fn words_are_followed_by_numbers(word: Seq<char>, c: char, rest: Seq<char>)
    requires
        forall|i: int| 0 <= i < word.len() ==> belongs(#[trigger] word[i], Run::Word),
    ensures
        c != ' ' && !belongs(c, Run::Word) ==> read_line("collect "@ + word + (seq![c] + rest))
            == Reading::Wrong(SyntaxErrorKind::ExpectedSeparator, 8 + word.len() as int),
        read_line("collect "@ + word + seq![' ']) == Reading::Wrong(
            SyntaxErrorKind::UnknownArgument,
            8 + word.len() as int,
        ),
        !belongs(c, Run::Number) ==> read_line("collect "@ + word + (seq![' ', c] + rest))
            == Reading::Wrong(SyntaxErrorKind::ExpectedInteger, 9 + word.len() as int),
{
    let at = 8 + word.len() as int;
    if c != ' ' && !belongs(c, Run::Word) {
        let tail = seq![c] + rest;
        lemma_collect_line(word, tail);
        assert(("collect "@ + word + tail)[at + 0] == tail[0]);
    }
    lemma_collect_line(word, seq![' ']);
    assert(("collect "@ + word + seq![' '])[at + 0] == ' ');
    if !belongs(c, Run::Number) {
        let tail = seq![' ', c] + rest;
        lemma_collect_line(word, tail);
        let line = "collect "@ + word + tail;
        assert(line[at + 0] == ' ');
        assert(line[at + 1] == c);
        lemma_run_from(line, at + 1, at + 1, Run::Number);
    }
}

/// Where a word to collect is followed by a space and characters of a number, those are the number:
/// a line with one that is none is wrong at its beginning, and one with anything behind the number
/// is wrong there, at a space where that ends the line and behind it otherwise.
pub proof fn numbers_end_the_line(word: Seq<char>, number: Seq<char>, rest: Seq<char>)
    requires
        forall|i: int| 0 <= i < word.len() ==> belongs(#[trigger] word[i], Run::Word),
        number.len() > 0,
        forall|i: int| 0 <= i < number.len() ==> belongs(#[trigger] number[i], Run::Number),
        rest.len() > 0 ==> !belongs(rest[0], Run::Number),
    ensures
        ({
            let at = 9 + word.len() as int;
            let end = at + number.len() as int;
            read_line("collect "@ + word + (" "@ + number + rest)) == if integer_value(
                number,
            ) is None {
                Reading::Wrong(SyntaxErrorKind::InvalidInteger, at)
            } else if rest.len() == 0 {
                Reading::Collect(word, integer_value(number))
            } else if rest[0] != ' ' {
                Reading::Wrong(SyntaxErrorKind::ExpectedSeparator, end)
            } else if rest.len() == 1 {
                Reading::Wrong(SyntaxErrorKind::UnknownArgument, end)
            } else {
                Reading::Wrong(SyntaxErrorKind::UnknownArgument, end + 1)
            }
        }),
{
    lemma_names();
    let tail = " "@ + number + rest;
    let line = "collect "@ + word + tail;
    let at = 9 + word.len() as int;
    let end = at + number.len() as int;
    lemma_collect_line(word, tail);
    assert(line[at - 1 + 0] == tail[0]);
    assert forall|i: int| at <= i < end implies belongs(#[trigger] line[i], Run::Number) by {
        assert(line[at - 1 + (i - at + 1)] == tail[i - at + 1]);
        assert(tail[i - at + 1] == number[i - at]);
    }
    if rest.len() > 0 {
        assert(line[at - 1 + (number.len() as int + 1)] == tail[number.len() as int + 1]);
        assert(line[end] == rest[0]);
    }
    lemma_run_from(line, at, end, Run::Number);
    assert(line.subrange(at, end) =~= number);
}

/// Integers that an `i32` holds are read back from their decimal form, and others are not read.
pub proof fn integers_are_read_back(n: int)
    ensures
        i32::MIN <= n <= i32::MAX ==> integer_value(signed_decimal(n)) == Some(n),
        !(i32::MIN <= n <= i32::MAX) ==> integer_value(signed_decimal(n)) is None,
{
    if i32::MIN <= n <= i32::MAX {
        lemma_decimal_is_number(n);
    } else if n < 0 {
        decimal_reads_back(-n);
        assert(signed_decimal(n).skip(1) =~= decimal(-n));
    } else {
        decimal_reads_back(n);
        assert(is_digit(decimal(n)[0]));
    }
}

/// Only digits, with a minus sign in front or not, are read as an integer, and there is at least one
/// of them.
pub proof fn integers_are_made_of_digits(text: Seq<char>, i: int)
    requires
        integer_value(text) is Some,
        0 <= i < text.len(),
    ensures
        '0' <= text[i] <= '9' || (i == 0 && text[0] == '-' && text.len() > 1),
        i32::MIN <= integer_value(text)->0 <= i32::MAX,
        integer_value(Seq::empty()) is None,
{
    if text[0] == '-' {
        let digits = text.skip(1);
        if i > 0 {
            assert(is_digit(digits[i - 1]));
        }
    } else {
        assert(is_digit(text[i]));
    }
}

/// Another digit behind an integer makes it ten times as great and adds the digit, away from zero.
pub proof fn digits_extend_integers(text: Seq<char>, c: char)
    requires
        integer_value(text) is Some,
        '0' <= c <= '9',
    ensures
        ({
            let v = integer_value(text)->0;
            let d = c as int - '0' as int;
            let next = if text[0] == '-' {
                10 * v - d
            } else {
                10 * v + d
            };
            integer_value(text.push(c)) == if i32::MIN <= next <= i32::MAX {
                Some(next)
            } else {
                None
            }
        }),
{
    let negative = text[0] == '-';
    let digits = if negative {
        text.skip(1)
    } else {
        text
    };
    let more = digits.push(c);
    assert(text.push(c)[0] == text[0]);
    assert(negative ==> text.push(c).skip(1) =~= more);
    assert(more.drop_last() =~= digits);
    assert forall|j: int| 0 <= j < more.len() implies is_digit(#[trigger] more[j]) by {
        if j < digits.len() {
            assert(is_digit(digits[j]));
        }
    }
}

/// What is said of a line that is no command: what is wrong, where, and the ten characters in front
/// of that place, or all where there are no more than ten. What is wrong with an integer is said
/// with its place of its own.
pub proof fn errors_are_told_with_their_place(line: Seq<char>, cursor: usize)
    requires
        cursor <= line.len(),
    ensures
        ({
            let before = if cursor <= 10 {
                line.take(cursor as int)
            } else {
                "..."@ + line.subrange(cursor - 10, cursor as int)
            };
            let place = " at position "@ + decimal(cursor as int) + ": "@ + before + "<--[HERE]"@;
            &&& error_text(line, SyntaxError { kind: SyntaxErrorKind::UnknownCommand, cursor })
                == "Unknown command"@ + place
            &&& error_text(line, SyntaxError { kind: SyntaxErrorKind::UnknownArgument, cursor })
                == "Incorrect argument for command"@ + place
            &&& error_text(line, SyntaxError { kind: SyntaxErrorKind::ExpectedSeparator, cursor })
                == "Expected whitespace to end one argument, but found trailing data"@ + place
            &&& error_text(line, SyntaxError { kind: SyntaxErrorKind::ExpectedInteger, cursor })
                == "Could not parse command: Expected Integer"@ + place + place
            &&& error_text(line, SyntaxError { kind: SyntaxErrorKind::InvalidInteger, cursor })
                == "Could not parse command: Invalid Integer '"@ + line.subrange(
                cursor as int,
                run_end(line, cursor as int, Run::Number),
            ) + "'"@ + place + place
        }),
{
}

/// A line with a space, or of plain ASCII, can be read, whatever it holds.
pub proof fn spaced_lines_are_readable(before: Seq<char>, after: Seq<char>)
    ensures
        is_readable(before + seq![' '] + after),
        is_ascii_chars(before) ==> is_readable(before),
{
    let line = before + seq![' '] + after;
    assert(line[before.len() as int] == ' ');
}

/// A command that is read says what the line says, and nothing else.
pub proof fn commands_say_what_was_read(result: Result<Command, SyntaxError>, reading: Reading)
    requires
        is_reading(result, reading),
    ensures
        reading is Come <==> result matches Ok(Command::Come),
        reading is Stop <==> result matches Ok(Command::Stop),
        reading is Wrong <==> result is Err,
        reading matches Reading::Wrong(kind, cursor) ==> result->Err_0.kind == kind
            && result->Err_0.cursor == cursor,
        result matches Ok(Command::Build { description }) ==> reading == Reading::Build(
            description@,
        ),
        result matches Ok(Command::Collect { target, count }) ==> reading == Reading::Collect(
            target@,
            match count {
                Some(n) => Some(n as int),
                None => None,
            },
        ),
{
}

} // verus!
