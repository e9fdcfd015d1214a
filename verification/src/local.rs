//! What is kept on the machine next to the ledger: the log, and which processes run.
use vstd::prelude::*;

use crate::text;
use crate::text::contains_text;
use crate::text::parse_number;
use crate::text::push_decimal;
use crate::text::split_words;
use crate::text::starts_with_text;
use crate::text::trim;

verus! {

/// The bytes from which on the log is begun anew.
pub const MAX_LOG_BYTES: u64 = 1_048_576;

/// Whether a log of this length is begun anew before the next line.
pub fn is_log_full(bytes: u64) -> (full: bool)
    ensures
        full == (bytes > MAX_LOG_BYTES),
{
    bytes > MAX_LOG_BYTES
}

/// A number in decimal notation, with its sign where it is negative.
pub open spec fn signed_decimal(number: i64) -> Seq<char> {
    if number >= 0 {
        text::decimal(number as nat)
    } else {
        "-"@ + text::decimal((-number) as nat)
    }
}

/// A character on one line: a space in place of a line break.
pub open spec fn unbroken(c: char) -> char {
    if c == '\r' || c == '\n' {
        ' '
    } else {
        c
    }
}

/// A line of the log: its time and its message, without line breaks.
pub open spec fn log_entry(at_ms: i64, message: Seq<char>) -> Seq<char> {
    signed_decimal(at_ms) + " "@ + message.map_values(|c: char| unbroken(c))
}

/// A line of the log.
pub fn log_line(at_ms: i64, message: &str) -> (line: String)
    ensures
        line@ == log_entry(at_ms, message@),
{
    let mut line = String::new();
    let wide: i128 = at_ms as i128;
    if wide >= 0 {
        push_decimal(&mut line, wide as u64);
    } else {
        line.append("-");
        push_decimal(&mut line, (-wide) as u64);
    }
    line.append(" ");
    let ghost head = line@;
    let ghost body = message@.map_values(|c: char| unbroken(c));
    assert(head =~= signed_decimal(at_ms) + " "@);
    for c in it: message.chars()
        invariant
            it.seq() == message@,
            body == message@.map_values(|c: char| unbroken(c)),
            line@ == head + body.take(it.index() as int),
    {
        let ghost before = line@;
        if c == '\r' || c == '\n' {
            line.push(' ');
        } else {
            line.push(c);
        }
        assert(line@ =~= before.push(unbroken(c)));
        assert(before.push(unbroken(c)) =~= head + body.take(it.index() + 1));
    }
    assert(body.take(body.len() as int) =~= body);
    line
}

/// A message never breaks a line of the log.
pub proof fn log_entries_are_single_lines(at_ms: i64, message: Seq<char>)
    ensures
        forall|i: int|
            0 <= i < log_entry(at_ms, message).len() ==> (#[trigger] log_entry(at_ms, message)[i])
                != '\n' && log_entry(at_ms, message)[i] != '\r',
{
    reveal_strlit(" ");
    reveal_strlit("-");
    let entry = log_entry(at_ms, message);
    let number = signed_decimal(at_ms);
    let head = number + " "@;
    let magnitude = if at_ms >= 0 {
        at_ms as nat
    } else {
        (-at_ms) as nat
    };
    text::decimal_is_made_of_digits(magnitude);
    assert forall|i: int| 0 <= i < entry.len() implies (#[trigger] entry[i]) != '\n' && entry[i]
        != '\r' by {
        if i < number.len() {
            assert(entry[i] == head[i]);
            assert(head[i] == number[i]);
            if at_ms >= 0 {
                assert(text::is_digit(text::decimal(magnitude)[i]));
            } else if i > 0 {
                assert(number[i] == text::decimal(magnitude)[i - 1]);
                assert(text::is_digit(text::decimal(magnitude)[i - 1]));
            }
        } else if i < head.len() {
            assert(entry[i] == head[i]);
        } else {
            let c = message[i - head.len()];
            assert(entry[i] == unbroken(c));
        }
    }
}

/// The number of a process in a file, without the white space around it.
pub open spec fn process_in(content: Seq<char>) -> Option<nat> {
    text::number_of_text(text::trimmed(content), u32::MAX as nat)
}

/// The number of the process that a file names.
pub fn process_of_file(content: &str) -> (pid: Option<u32>)
    ensures
        match pid {
            Some(pid) => process_in(content@) == Some(pid as nat),
            None => process_in(content@) is None,
        },
{
    match parse_number(trim(content), 4_294_967_295) {
        Some(pid) => Some(pid as u32),
        None => None,
    }
}

/// What is said where a recorder is running.
pub fn already_running(pid: u32) -> (message: String)
    ensures
        message@ == "recorder is already running with PID "@ + text::decimal(pid as nat),
{
    let mut message = "recorder is already running with PID ".to_owned();
    push_decimal(&mut message, pid as u64);
    message
}

/// Whether a list of processes names one: its number stands there in quotes.
pub fn lists_process(list: &str, pid: u32) -> (listed: bool)
    ensures
        listed == text::occurs(list@, "\""@ + text::decimal(pid as nat) + "\""@),
{
    let mut quoted = "\"".to_owned();
    push_decimal(&mut quoted, pid as u64);
    quoted.append("\"");
    contains_text(list, quoted.as_str())
}

/// The process and the port of a dashboard in a file: its first two words.
pub open spec fn dashboard_in(content: Seq<char>) -> Option<(nat, nat)> {
    let words = text::words(content);
    if words.len() < 2 {
        None
    } else {
        match (
            text::number_of_text(words[0], u32::MAX as nat),
            text::number_of_text(words[1], u16::MAX as nat),
        ) {
            (Some(pid), Some(port)) => Some((pid, port)),
            _ => None,
        }
    }
}

/// The process and the port of the dashboard that a file names.
pub fn dashboard_process(content: &str) -> (dashboard: Option<(u32, u16)>)
    ensures
        match dashboard {
            Some((pid, port)) => dashboard_in(content@) == Some((pid as nat, port as nat)),
            None => dashboard_in(content@) is None,
        },
{
    let words = split_words(content);
    assert(words@.len() == text::views(words@).len());
    if words.len() < 2 {
        return None;
    }
    assert(text::views(words@)[0] == words@[0]@);
    assert(text::views(words@)[1] == words@[1]@);
    let pid = match parse_number(words[0].as_str(), 4_294_967_295) {
        Some(pid) => pid,
        None => {
            return None;
        },
    };
    match parse_number(words[1].as_str(), 65_535) {
        Some(port) => Some((pid as u32, port as u16)),
        None => None,
    }
}

/// What a file says about a dashboard.
pub open spec fn dashboard_file(pid: nat, port: nat) -> Seq<char> {
    text::decimal(pid) + " "@ + text::decimal(port)
}

/// What a file says about a dashboard.
pub fn dashboard_state(pid: u32, port: u16) -> (content: String)
    ensures
        content@ == dashboard_file(pid as nat, port as nat),
{
    let mut content = String::new();
    push_decimal(&mut content, pid as u64);
    content.append(" ");
    push_decimal(&mut content, port as u64);
    assert(content@ =~= dashboard_file(pid as nat, port as nat));
    content
}

/// A dashboard is found again by what was written about it.
pub proof fn dashboard_is_found_again(pid: u32, port: u16)
    ensures
        dashboard_in(dashboard_file(pid as nat, port as nat)) == Some((pid as nat, port as nat)),
{
    text::decimal_is_a_word(pid as nat);
    text::decimal_is_a_word(port as nat);
    text::two_words_are_read_back(text::decimal(pid as nat), text::decimal(port as nat));
    text::decimal_is_read_back(pid as nat, u32::MAX as nat);
    text::decimal_is_read_back(port as nat, u16::MAX as nat);
}

/// The address of a dashboard for a browser.
pub fn dashboard_url(port: u16) -> (url: String)
    ensures
        url@ == "http://127.0.0.1:"@ + text::decimal(port as nat),
{
    let mut url = "http://127.0.0.1:".to_owned();
    push_decimal(&mut url, port as u64);
    url
}

/// Whether an answer shows that a dashboard is ready.
pub fn is_dashboard_response(response: &str) -> (ready: bool)
    ensures
        ready == (text::has_prefix(response@, "HTTP/1.1 200"@) && text::occurs(
            response@,
            "codex-quota-ledger"@,
        )),
{
    starts_with_text(response, "HTTP/1.1 200") && contains_text(response, "codex-quota-ledger")
}

/// The newest of several files by their times: the last one of those that are equally new.
pub fn newest_candidate(modified: &Vec<i128>) -> (newest: Option<usize>)
    ensures
        match newest {
            Some(newest) => {
                &&& newest < modified@.len()
                &&& forall|i: int|
                    0 <= i < modified@.len() ==> (#[trigger] modified@[i])
                        < modified@[newest as int] || (modified@[i] == modified@[newest as int]
                        && i <= newest)
            },
            None => modified@.len() == 0,
        },
{
    if modified.len() == 0 {
        return None;
    }
    let mut newest: usize = 0;
    let mut i: usize = 1;
    while i < modified.len()
        invariant
            1 <= i <= modified@.len(),
            newest < i,
            forall|j: int|
                0 <= j < i ==> (#[trigger] modified@[j]) < modified@[newest as int] || (
                modified@[j] == modified@[newest as int] && j <= newest),
        decreases modified@.len() - i,
    {
        if modified[i] >= modified[newest] {
            newest = i;
        }
        i += 1;
    }
    Some(newest)
}

/// Whether an error says that a scheduled task is not there, in English or in Chinese.
pub fn is_missing_task(error: &str) -> (missing: bool)
    ensures
        missing == (text::occurs(error@, "cannot find"@) || text::occurs(error@, "找不到"@)),
{
    contains_text(error, "cannot find") || contains_text(error, "找不到")
}

/// The command of a scheduled task that runs the recorder.
pub fn task_command(executable: &str) -> (command: String)
    ensures
        command@ == "\""@ + executable@ + "\" run"@,
{
    let mut command = "\"".to_owned();
    command.append(executable);
    command.append("\" run");
    command
}

/// A line of the log says its time and its message: a message without line breaks stands there as it
/// is, and one with line breaks keeps its length and every other character.
pub proof fn a_log_entry_keeps_its_message(at_ms: i64, message: Seq<char>, i: int)
    requires
        0 <= i < message.len(),
    ensures
        ({
            let entry = log_entry(at_ms, message);
            let start = entry.len() - message.len();
            &&& start == signed_decimal(at_ms).len() + 1
            &&& message[i] != '\n' && message[i] != '\r' ==> entry[start + i] == message[i]
            &&& message[i] == '\n' || message[i] == '\r' ==> entry[start + i] == ' '
            &&& entry.take(signed_decimal(at_ms).len() as int) == signed_decimal(at_ms)
        }),
{
    reveal_strlit(" ");
    let entry = log_entry(at_ms, message);
    let body = message.map_values(|c: char| unbroken(c));
    assert(body[i] == unbroken(message[i]));
    assert(entry.take(signed_decimal(at_ms).len() as int) =~= signed_decimal(at_ms));
}

/// A process is found again by the number that was written, also with white space in front of it.
pub proof fn a_process_is_found_again(pid: u32, c: char)
    requires
        text::is_white(c),
    ensures
        process_in(text::decimal(pid as nat)) == Some(pid as nat),
        process_in(seq![c] + text::decimal(pid as nat)) == Some(pid as nat),
{
    reveal(text::is_white);
    let digits = text::decimal(pid as nat);
    text::decimal_is_made_of_digits(pid as nat);
    text::decimal_is_a_word(pid as nat);
    text::decimal_is_read_back(pid as nat, u32::MAX as nat);
    let padded = seq![c] + digits;
    assert(padded.drop_first() =~= digits);
    assert(text::is_digit(digits[0]));
    assert(text::is_digit(digits.last()));
    assert(text::trimmed(digits) == digits);
    assert(padded[0] == c);
    assert(text::trimmed(padded) == text::trimmed(digits));
}

} // verus!
