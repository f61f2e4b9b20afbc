//! The live smoke test: one build on a real server, watched until the bot is idle again.

use crate::building::BuildPhase;
use crate::geometry::BlockPos;
use crate::mode::BotMode;
use crate::targets::CollectPhase;
use crate::text::{
    all_digits, append_signed, decimal, decimal_reads_back, digits_value, is_digit,
    lemma_digits_grow, same_text, signed_decimal,
};
use vstd::prelude::*;
use vstd::string::*;

verus! {

/// What the test needs to know.
#[derive(Clone, Debug)]
pub struct LiveSmokeConfig {
    pub server_url: String,
    pub bot_name: String,
    pub description: String,
    pub start_delay_ticks: u64,
    pub timeout_secs: u64,
}

/// The settings of the test, as far as they are given.
#[derive(Clone, Debug)]
pub struct SmokeSettings {
    pub enabled: Option<String>,
    pub live_server_url: Option<String>,
    pub server_url: Option<String>,
    pub bot_name: Option<String>,
    pub description: Option<String>,
    pub start_delay_ticks: Option<String>,
    pub timeout_secs: Option<String>,
}

/// The number that digits, with a plus sign in front or not, stand for; `None` for any other
/// text, and for a number that a `u64` does not hold.
pub open spec fn unsigned_value(text: Seq<char>) -> Option<int> {
    let digits = if text.len() > 0 && text[0] == '+' {
        text.skip(1)
    } else {
        text
    };
    if digits.len() > 0 && all_digits(digits) && digits_value(digits) <= u64::MAX {
        Some(digits_value(digits))
    } else {
        None
    }
}

/// Reads a number.
fn read_unsigned(text: &str) -> (value: Option<u64>)
    ensures
        value is Some <==> unsigned_value(text@) is Some,
        value matches Some(v) ==> unsigned_value(text@) == Some(v as int),
{
    let n: usize = text.unicode_len();
    let signed: bool = n > 0 && text.get_char(0) == '+';
    let start: usize = if signed {
        1
    } else {
        0
    };
    let ghost digits = if signed {
        text@.skip(1)
    } else {
        text@
    };
    if start == n {
        return None;
    }
    let mut value: u64 = 0;
    let mut i: usize = start;
    assert(digits.take(0) =~= Seq::<char>::empty());
    while i < n
        invariant
            n == text@.len(),
            start <= i <= n,
            start < n,
            start == if signed {
                1int
            } else {
                0int
            },
            signed == (n > 0 && text@[0] == '+'),
            digits == if signed {
                text@.skip(1)
            } else {
                text@
            },
            digits.len() == n - start,
            all_digits(digits.take(i - start)),
            value == digits_value(digits.take(i - start)),
        decreases n - i,
    {
        let c: char = text.get_char(i);
        let ghost k = i - start;
        assert(c == digits[k]);
        if !('0' <= c && c <= '9') {
            assert(!is_digit(digits[k]));
            return None;
        }
        let digit: u64 = c as u64 - '0' as u64;
        proof {
            let seen = digits.take(k + 1);
            assert(seen.drop_last() =~= digits.take(k));
            assert(seen.last() == c);
            assert forall|j: int| 0 <= j < seen.len() implies is_digit(#[trigger] seen[j]) by {
                if j < k {
                    assert(is_digit(digits.take(k)[j]));
                }
            }
            if all_digits(digits) {
                lemma_digits_grow(digits, k + 1);
            }
        }
        match value.checked_mul(10) {
            None => {
                return None;
            },
            Some(shifted) => match shifted.checked_add(digit) {
                None => {
                    return None;
                },
                Some(sum) => {
                    value = sum;
                },
            },
        }
        i = i + 1;
    }
    assert(digits.take(n - start) =~= digits);
    Some(value)
}

/// A setting that is a number, and the value for it where it is not given or is no number.
pub open spec fn number_or(setting: Option<String>, default: int) -> int {
    match setting {
        Some(text) => match unsigned_value(text@) {
            Some(value) => value,
            None => default,
        },
        None => default,
    }
}

fn number_setting(setting: &Option<String>, default: u64) -> (value: u64)
    ensures
        value == number_or(*setting, default as int),
{
    match setting {
        Some(text) => match read_unsigned(text.as_str()) {
            Some(value) => value,
            None => default,
        },
        None => default,
    }
}

/// A setting that is a text, and the text for it where it is not given.
pub open spec fn text_or(setting: Option<String>, default: Seq<char>) -> Seq<char> {
    match setting {
        Some(text) => text@,
        None => default,
    }
}

fn text_setting(setting: Option<String>, default: &str) -> (text: String)
    ensures
        text@ == text_or(setting, default@),
{
    match setting {
        Some(text) => text,
        None => default.to_owned(),
    }
}

/// What is wrong with the settings: the test has to be enabled, and it needs a server.
pub open spec fn settings_error(settings: SmokeSettings) -> Option<Seq<char>> {
    if !(settings.enabled matches Some(flag) && flag@ == "1"@) {
        Some("LIVE_TEST_ENABLED=1 is required to run the live smoke harness"@)
    } else if settings.live_server_url is None && settings.server_url is None {
        Some("LIVE_TEST_SERVER_URL or SERVER_URL must be set"@)
    } else {
        None
    }
}

impl LiveSmokeConfig {
    /// The configuration from the settings, or what is wrong with them.
    pub fn from_settings(settings: SmokeSettings) -> (config: Result<LiveSmokeConfig, String>)
        ensures
            match config {
                Ok(c) => {
                    &&& settings_error(settings) is None
                    &&& Some(c.server_url) == match settings.live_server_url {
                        Some(url) => Some(url),
                        None => settings.server_url,
                    }
                    &&& c.bot_name@ == text_or(settings.bot_name, "GoodBotSmoke"@)
                    &&& c.description@ == text_or(settings.description, "wood hut"@)
                    &&& c.start_delay_ticks == number_or(settings.start_delay_ticks, 40)
                    &&& c.timeout_secs == number_or(settings.timeout_secs, 180)
                },
                Err(message) => settings_error(settings) == Some(message@),
            },
    {
        let enabled: bool = match &settings.enabled {
            Some(flag) => same_text(flag.as_str(), "1"),
            None => false,
        };
        if !enabled {
            return Err(
                "LIVE_TEST_ENABLED=1 is required to run the live smoke harness".to_owned(),
            );
        }
        let start_delay_ticks: u64 = number_setting(&settings.start_delay_ticks, 40);
        let timeout_secs: u64 = number_setting(&settings.timeout_secs, 180);
        let server = match settings.live_server_url {
            Some(url) => Some(url),
            None => settings.server_url,
        };
        match server {
            None => Err("LIVE_TEST_SERVER_URL or SERVER_URL must be set".to_owned()),
            Some(server_url) => Ok(
                LiveSmokeConfig {
                    server_url,
                    bot_name: text_setting(settings.bot_name, "GoodBotSmoke"),
                    description: text_setting(settings.description, "wood hut"),
                    start_delay_ticks,
                    timeout_secs,
                },
            ),
        }
    }
}

/// A position as it is shown.
pub open spec fn pos_text(pos: BlockPos) -> Seq<char> {
    "BlockPos { x: "@ + signed_decimal(pos.x as int) + ", y: "@ + signed_decimal(pos.y as int)
        + ", z: "@ + signed_decimal(pos.z as int) + " }"@
}

/// A phase of collecting as it is shown.
pub open spec fn phase_text(phase: CollectPhase) -> Seq<char> {
    match phase {
        CollectPhase::Searching => "Searching"@,
        CollectPhase::MovingToBlock(pos) => "MovingToBlock("@ + pos_text(pos) + ")"@,
        CollectPhase::Mining(pos) => "Mining("@ + pos_text(pos) + ")"@,
        CollectPhase::Looting => "Looting"@,
    }
}

/// A mode as it is shown, with its phase.
pub open spec fn mode_text(mode: BotMode) -> Seq<char> {
    match mode {
        BotMode::Idle => "Idle"@,
        BotMode::Following(_) => "Following"@,
        BotMode::Collecting(job) => "Collecting("@ + phase_text(job.phase) + ")"@,
        BotMode::Building(job) => match job.phase {
            BuildPhase::ScanningChests { .. } => "Building(ScanningChests)"@,
            BuildPhase::WaitingForLlm { .. } => "Building(WaitingForLlm)"@,
            BuildPhase::CollectingResources { .. } => "Building(CollectingResources)"@,
            BuildPhase::PlacingBlocks { .. } => "Building(PlacingBlocks)"@,
        },
        BotMode::Combat(_) => "Combat"@,
    }
}

fn append_pos(out: &mut String, pos: BlockPos)
    ensures
        final(out)@ == old(out)@ + pos_text(pos),
{
    let ghost before = out@;
    out.append("BlockPos { x: ");
    append_signed(out, pos.x as i64);
    out.append(", y: ");
    append_signed(out, pos.y as i64);
    out.append(", z: ");
    append_signed(out, pos.z as i64);
    out.append(" }");
    assert(out@ =~= before + pos_text(pos));
}

fn show_phase(phase: CollectPhase) -> (text: String)
    ensures
        text@ == phase_text(phase),
{
    match phase {
        CollectPhase::Searching => "Searching".to_owned(),
        CollectPhase::MovingToBlock(pos) => {
            let mut text = "MovingToBlock(".to_owned();
            append_pos(&mut text, pos);
            text.append(")");
            text
        },
        CollectPhase::Mining(pos) => {
            let mut text = "Mining(".to_owned();
            append_pos(&mut text, pos);
            text.append(")");
            text
        },
        CollectPhase::Looting => "Looting".to_owned(),
    }
}

/// A mode as it is shown, with its phase.
pub fn mode_display_name(mode: &BotMode) -> (name: String)
    ensures
        name@ == mode_text(*mode),
{
    match mode {
        BotMode::Idle => "Idle".to_owned(),
        BotMode::Following(_) => "Following".to_owned(),
        BotMode::Collecting(job) => "Collecting(".to_owned().concat(
            show_phase(job.phase).as_str(),
        ).concat(")"),
        BotMode::Building(job) => match &job.phase {
            BuildPhase::ScanningChests { .. } => "Building(ScanningChests)".to_owned(),
            BuildPhase::WaitingForLlm { .. } => "Building(WaitingForLlm)".to_owned(),
            BuildPhase::CollectingResources { .. } => "Building(CollectingResources)".to_owned(),
            BuildPhase::PlacingBlocks { .. } => "Building(PlacingBlocks)".to_owned(),
        },
        BotMode::Combat(_) => "Combat".to_owned(),
    }
}

/// What the test has seen so far.
#[derive(Clone, Debug)]
pub struct SmokeRuntime {
    pub queued: bool,
    pub saw_non_idle: bool,
    pub last_mode_name: String,
    pub phase_history: Vec<String>,
}

impl Default for SmokeRuntime {
    fn default() -> (runtime: SmokeRuntime)
        ensures
            !runtime.queued,
            !runtime.saw_non_idle,
            runtime.last_mode_name@ == Seq::<char>::empty(),
            runtime.phase_history@ == Seq::<String>::empty(),
    {
        SmokeRuntime {
            queued: false,
            saw_non_idle: false,
            last_mode_name: String::new(),
            phase_history: Vec::new(),
        }
    }
}

/// The texts of a history.
pub open spec fn history(phases: Seq<String>) -> Seq<Seq<char>> {
    Seq::new(phases.len(), |i: int| phases[i]@)
}

/// What one tick of the test comes to: what has been seen, whether to begin the build, and whether
/// the test has passed.
#[derive(Debug)]
pub struct SmokeTick {
    pub runtime: SmokeRuntime,
    pub queue: bool,
    pub passed: bool,
}

/// One tick of the test: a mode that has changed is put on record, the build begins after a
/// delay, and once the bot has been busy since and is idle again the test has passed.
pub fn smoke_tick(
    runtime: SmokeRuntime,
    mode: &BotMode,
    ticks: u64,
    start_delay_ticks: u64,
) -> (tick: SmokeTick)
    ensures
        tick.runtime.last_mode_name@ == mode_text(*mode),
        history(tick.runtime.phase_history@) == if mode_text(*mode) == runtime.last_mode_name@ {
            history(runtime.phase_history@)
        } else {
            history(runtime.phase_history@).push(mode_text(*mode))
        },
        tick.queue <==> !runtime.queued && ticks >= start_delay_ticks,
        tick.runtime.queued <==> runtime.queued || tick.queue,
        tick.runtime.saw_non_idle <==> runtime.saw_non_idle || (tick.runtime.queued && !(mode
            is Idle)),
        tick.passed <==> tick.runtime.queued && runtime.saw_non_idle && mode is Idle,
{
    let name = mode_display_name(mode);
    let ghost seen = runtime.phase_history@;
    let mut phase_history: Vec<String> = runtime.phase_history;
    if !same_text(name.as_str(), runtime.last_mode_name.as_str()) {
        phase_history.push(name.clone());
        assert(history(phase_history@) =~= history(seen).push(name@));
    }
    let queue: bool = !runtime.queued && ticks >= start_delay_ticks;
    let queued: bool = runtime.queued || queue;
    let idle: bool = match mode {
        BotMode::Idle => true,
        _ => false,
    };
    let mut saw_non_idle: bool = runtime.saw_non_idle;
    let mut passed: bool = false;
    if queued && !idle {
        saw_non_idle = true;
    } else if queued && saw_non_idle && idle {
        passed = true;
    }
    SmokeTick {
        runtime: SmokeRuntime { queued, saw_non_idle, last_mode_name: name, phase_history },
        queue,
        passed,
    }
}

/// How the test ended.
#[derive(Clone, Copy, Debug, PartialEq, Eq, Structural)]
pub enum SmokeOutcome {
    Passed,
    TimedOut,
    Misconfigured,
}

/// The exit code of the test: 0 where it has passed, 1 where the bot got stuck, 2 where the
/// settings are wrong.
pub fn exit_code(outcome: SmokeOutcome) -> (code: u8)
    ensures
        code == match outcome {
            SmokeOutcome::Passed => 0int,
            SmokeOutcome::TimedOut => 1,
            SmokeOutcome::Misconfigured => 2,
        },
{
    match outcome {
        SmokeOutcome::Passed => 0,
        SmokeOutcome::TimedOut => 1,
        SmokeOutcome::Misconfigured => 2,
    }
}

/// A history as the test records it: it ends with the mode seen last, and no two neighbours are
/// the same.
pub open spec fn is_record(phases: Seq<Seq<char>>, last: Seq<char>) -> bool {
    &&& phases.len() > 0 ==> phases.last() == last
    &&& phases.len() == 0 ==> last.len() == 0
    &&& forall|i: int| 0 < i < phases.len() ==> phases[i - 1] != #[trigger] phases[i]
}

/// Recording a mode keeps a record a record.
pub proof fn records_stay_records(phases: Seq<Seq<char>>, last: Seq<char>, mode: BotMode)
    requires
        is_record(phases, last),
    ensures
        is_record(
            if mode_text(mode) == last {
                phases
            } else {
                phases.push(mode_text(mode))
            },
            mode_text(mode),
        ),
{
    reveal_strlit("Idle");
    reveal_strlit("Following");
    reveal_strlit("Collecting(");
    reveal_strlit("Building(ScanningChests)");
    reveal_strlit("Building(WaitingForLlm)");
    reveal_strlit("Building(CollectingResources)");
    reveal_strlit("Building(PlacingBlocks)");
    reveal_strlit("Combat");
    assert(mode_text(mode).len() > 0);
    if mode_text(mode) != last {
        let longer = phases.push(mode_text(mode));
        assert forall|i: int| 0 < i < longer.len() implies longer[i - 1] != #[trigger] longer[i] by {
            if i < phases.len() {
                assert(phases[i - 1] != phases[i]);
            }
        }
    }
}

/// A number that a `u64` holds is read back from its decimal form, with a plus sign in front or not;
/// a greater one is not read.
pub proof fn numbers_are_read_back(n: int)
    requires
        0 <= n,
    ensures
        unsigned_value(decimal(n)) == if n <= u64::MAX {
            Some(n)
        } else {
            None
        },
        unsigned_value(seq!['+'] + decimal(n)) == if n <= u64::MAX {
            Some(n)
        } else {
            None
        },
{
    decimal_reads_back(n);
    assert(is_digit(decimal(n)[0]));
    assert((seq!['+'] + decimal(n)).skip(1) =~= decimal(n));
}

/// Only digits, with a plus sign in front or not, are read as a number, and there is at least one of
/// them.
pub proof fn numbers_are_made_of_digits(text: Seq<char>, i: int)
    requires
        unsigned_value(text) is Some,
        0 <= i < text.len(),
    ensures
        '0' <= text[i] <= '9' || (i == 0 && text[0] == '+' && text.len() > 1),
        0 <= unsigned_value(text)->0 <= u64::MAX,
        unsigned_value(Seq::empty()) is None,
{
    let digits = if text[0] == '+' {
        text.skip(1)
    } else {
        text
    };
    lemma_digits_grow(digits, 0);
    if text[0] == '+' {
        if i > 0 {
            assert(is_digit(digits[i - 1]));
        }
    } else {
        assert(is_digit(text[i]));
    }
}

/// Another digit behind a number makes it ten times as great and adds the digit.
pub proof fn digits_extend_numbers(text: Seq<char>, c: char)
    requires
        unsigned_value(text) is Some,
        '0' <= c <= '9',
    ensures
        ({
            let next = 10 * unsigned_value(text)->0 + (c as int - '0' as int);
            unsigned_value(text.push(c)) == if next <= u64::MAX {
                Some(next)
            } else {
                None
            }
        }),
{
    let signed = text[0] == '+';
    let digits = if signed {
        text.skip(1)
    } else {
        text
    };
    let more = digits.push(c);
    assert(text.push(c)[0] == text[0]);
    assert(signed ==> text.push(c).skip(1) =~= more);
    assert(more.drop_last() =~= digits);
    assert forall|j: int| 0 <= j < more.len() implies is_digit(#[trigger] more[j]) by {
        if j < digits.len() {
            assert(is_digit(digits[j]));
        }
    }
}

/// A setting that is given counts, and one that is not leaves the value as it is; so does one that
/// should be a number and is none.
pub proof fn settings_come_before_defaults(text: String, number: int, words: Seq<char>)
    ensures
        unsigned_value(text@) is Some ==> number_or(Some(text), number) == unsigned_value(text@)->0,
        unsigned_value(text@) is None ==> number_or(Some(text), number) == number,
        number_or(None, number) == number,
        text_or(Some(text), words) == text@,
        text_or(None, words) == words,
{
}

/// The test runs if and only if it is enabled with just `1` and a server is named by one setting or
/// the other. That it is not enabled is said before that there is no server.
pub proof fn tests_must_be_asked_for(settings: SmokeSettings)
    ensures
        settings_error(settings) is None <==> settings.enabled is Some && settings.enabled->0@
            == "1"@ && (settings.live_server_url is Some || settings.server_url is Some),
        settings.enabled is None || settings.enabled->0@ != "1"@ ==> settings_error(settings)
            == Some("LIVE_TEST_ENABLED=1 is required to run the live smoke harness"@),
        settings.enabled is Some && settings.enabled->0@ == "1"@ && settings.live_server_url is None
            && settings.server_url is None ==> settings_error(settings) == Some(
            "LIVE_TEST_SERVER_URL or SERVER_URL must be set"@,
        ),
{
}

/// A mode is shown by its name, with the phase of what it does where it collects or builds, and with
/// the block of the phase where that has one.
pub proof fn modes_are_shown_with_their_phases(mode: BotMode)
    ensures
        mode is Idle ==> mode_text(mode) == "Idle"@,
        mode is Following ==> mode_text(mode) == "Following"@,
        mode is Combat ==> mode_text(mode) == "Combat"@,
        mode matches BotMode::Collecting(job) ==> {
            &&& job.phase is Searching ==> mode_text(mode) == "Collecting("@ + "Searching"@ + ")"@
            &&& job.phase is Looting ==> mode_text(mode) == "Collecting("@ + "Looting"@ + ")"@
            &&& job.phase matches CollectPhase::MovingToBlock(pos) ==> mode_text(mode)
                == "Collecting("@ + ("MovingToBlock("@ + ("BlockPos { x: "@ + signed_decimal(
                pos.x as int,
            ) + ", y: "@ + signed_decimal(pos.y as int) + ", z: "@ + signed_decimal(pos.z as int)
                + " }"@) + ")"@) + ")"@
            &&& job.phase matches CollectPhase::Mining(pos) ==> mode_text(mode) == "Collecting("@
                + ("Mining("@ + ("BlockPos { x: "@ + signed_decimal(pos.x as int) + ", y: "@
                + signed_decimal(pos.y as int) + ", z: "@ + signed_decimal(pos.z as int) + " }"@)
                + ")"@) + ")"@
        },
        mode matches BotMode::Building(job) ==> {
            &&& job.phase is ScanningChests ==> mode_text(mode) == "Building(ScanningChests)"@
            &&& job.phase is WaitingForLlm ==> mode_text(mode) == "Building(WaitingForLlm)"@
            &&& job.phase is CollectingResources ==> mode_text(mode)
                == "Building(CollectingResources)"@
            &&& job.phase is PlacingBlocks ==> mode_text(mode) == "Building(PlacingBlocks)"@
        },
{
}

/// A history keeps every text, in its place.
pub proof fn histories_keep_every_text(phases: Seq<String>, text: String, i: int)
    ensures
        history(phases).len() == phases.len(),
        0 <= i < phases.len() ==> history(phases)[i] == phases[i]@,
        history(phases.push(text)) == history(phases).push(text@),
{
    assert(history(phases.push(text)) =~= history(phases).push(text@));
}

/// In a record no mode follows itself, and the last one is the one seen last.
pub proof fn records_do_not_repeat(phases: Seq<Seq<char>>, last: Seq<char>, i: int)
    requires
        is_record(phases, last),
    ensures
        0 <= i < phases.len() - 1 ==> phases[i] != phases[i + 1],
        phases.len() > 0 ==> phases[phases.len() - 1] == last,
        phases.len() == 0 ==> last.len() == 0,
{
    if 0 <= i < phases.len() - 1 {
        assert(phases[i + 1 - 1] != phases[i + 1]);
    }
}

} // verus!
