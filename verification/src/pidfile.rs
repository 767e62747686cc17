//! The pid file: one decimal number and nothing else.

use vstd::prelude::*;
use vstd::string::StringExecFns;

verus! {

/// The character of a digit below ten.
pub open spec fn digit_char(digit: int) -> char {
    ('0' as int + digit) as char
}

/// The character is one of the ten digits.
pub open spec fn is_digit(c: char) -> bool {
    '0' <= c <= '9'
}

/// The decimal notation of a number, without leading zeros.
pub open spec fn decimal(n: nat) -> Seq<char>
    decreases n,
{
    if n < 10 {
        seq![digit_char(n as int)]
    } else {
        decimal(n / 10).push(digit_char((n % 10) as int))
    }
}

/// The text of a process id.
pub open spec fn pid_text(pid: int) -> Seq<char> {
    if pid < 0 {
        seq!['-'] + decimal((-pid) as nat)
    } else {
        decimal(pid as nat)
    }
}

/// The number that digits denote.
pub open spec fn digits_value(digits: Seq<char>) -> int
    decreases digits.len(),
{
    if digits.len() == 0 {
        0
    } else {
        digits_value(digits.drop_last()) * 10 + (digits.last() as int - '0' as int)
    }
}

/// The text begins with a sign.
pub open spec fn is_signed(text: Seq<char>) -> bool {
    text.len() > 0 && (text[0] == '-' || text[0] == '+')
}

/// What follows the sign, if there is one.
pub open spec fn unsigned_part(text: Seq<char>) -> Seq<char> {
    if is_signed(text) {
        text.skip(1)
    } else {
        text
    }
}

/// The number that the text denotes, if it is an integer: an optional sign, then
/// digits, at least one, and nothing else.
pub open spec fn integer_value(text: Seq<char>) -> Option<int> {
    let digits: Seq<char> = unsigned_part(text);
    if digits.len() == 0 || exists|i: int| 0 <= i < digits.len() && !is_digit(#[trigger] digits[i]) {
        None
    } else if text[0] == '-' {
        Some(-digits_value(digits))
    } else {
        Some(digits_value(digits))
    }
}

/// The process id that a line of the pid file holds: an integer, without
/// surrounding space or line end, that fits in 32 bits.
pub open spec fn recorded(line: Seq<char>) -> Option<i32> {
    match integer_value(line) {
        Some(n) => if i32::MIN <= n <= i32::MAX {
            Some(n as i32)
        } else {
            None
        },
        None => None,
    }
}

/// How far a look at the pid file has come.
#[derive(Clone, Copy, Debug, PartialEq, Eq, Structural)]
pub enum PidCheck {
    /// The pid file is to be opened and its first line read.
    ReadLine,
    /// Signal 0 is to be sent to this process.
    Probe(i32),
    /// The process that runs, if one does.
    Answer(Option<i32>),
}

/// What a step of the look at the pid file came to.
#[derive(Debug, PartialEq, Eq)]
pub enum PidReply {
    /// The pid file could not be opened.
    NotOpened,
    /// What could be read of the first line, its line end included.
    Line(String),
    /// What `kill` returned.
    Kill(i32),
}

/// The reply is one to what the check waits for.
pub open spec fn answers(check: PidCheck, reply: PidReply) -> bool {
    match check {
        PidCheck::ReadLine => reply is NotOpened || reply is Line,
        PidCheck::Probe(_) => reply is Kill,
        PidCheck::Answer(_) => false,
    }
}

/// How the check goes on.
pub open spec fn check_after(check: PidCheck, reply: PidReply) -> PidCheck {
    match (check, reply) {
        (_, PidReply::Line(line)) => match recorded(line@) {
            Some(pid) => PidCheck::Probe(pid),
            None => PidCheck::Answer(None),
        },
        (PidCheck::Probe(pid), PidReply::Kill(result)) => if result == 0 {
            PidCheck::Answer(Some(pid))
        } else {
            PidCheck::Answer(None)
        },
        (_, _) => PidCheck::Answer(None),
    }
}

/// A longer run of digits denotes no smaller number.
proof fn lemma_digits_value_grows(digits: Seq<char>, k: int)
    requires
        0 <= k <= digits.len(),
        forall|i: int| 0 <= i < digits.len() ==> is_digit(#[trigger] digits[i]),
    ensures
        0 <= digits_value(digits.take(k)) <= digits_value(digits),
    decreases digits.len(),
{
    if k == digits.len() {
        assert(digits.take(k) =~= digits);
        if digits.len() > 0 {
            lemma_digits_value_grows(digits.drop_last(), 0);
            assert(is_digit(digits[digits.len() - 1]));
            assert(digits.drop_last().take(0) =~= Seq::empty());
        }
    } else {
        lemma_digits_value_grows(digits.drop_last(), k);
        assert(digits.drop_last().take(k) =~= digits.take(k));
        assert(is_digit(digits[digits.len() - 1]));
    }
}

/// The process id that a line of the pid file holds.
pub fn recorded_pid(line: &str) -> (pid: Option<i32>)
    ensures
        pid == recorded(line@),
{
    let ghost digits: Seq<char> = unsigned_part(line@);
    let ghost start: int = if is_signed(line@) { 1 } else { 0 };
    let mut first: bool = true;
    let mut negative: bool = false;
    let mut some_digit: bool = false;
    let mut value: i64 = 0;
    for c in chars: line.chars()
        invariant
            chars.seq() == line@,
            digits == unsigned_part(line@),
            digits == line@.skip(start),
            start == (if is_signed(line@) { 1int } else { 0 }),
            first == (chars.index() == 0),
            negative == (chars.index() > 0 && line@[0] == '-'),
            some_digit == (chars.index() > start),
            forall|j: int| 0 <= j < chars.index() - start ==> is_digit(#[trigger] digits[j]),
            chars.index() >= start ==> value == digits_value(digits.take(chars.index() - start)),
            chars.index() < start ==> value == 0,
            0 <= value <= 2147483648,
    {
        let ghost at: int = chars.index() as int;
        assert(c == line@[at]);
        if first && (c == '-' || c == '+') {
            negative = c == '-';
            assert(digits.take(0) =~= Seq::empty());
        } else {
            assert(c == digits[at - start]);
            if !('0' <= c && c <= '9') {
                return None;
            }
            assert(digits.take(at - start + 1).drop_last() =~= digits.take(at - start));
            value = value * 10 + (c as u32 - '0' as u32) as i64;
            some_digit = true;
            if value > 2147483648 {
                proof {
                    if forall|j: int| 0 <= j < digits.len() ==> is_digit(#[trigger] digits[j]) {
                        lemma_digits_value_grows(digits, at - start + 1);
                    }
                }
                return None;
            }
        }
        first = false;
    }
    assert(digits.take(digits.len() as int) =~= digits);
    if !some_digit {
        None
    } else if negative {
        Some((-value) as i32)
    } else if value <= 2147483647 {
        Some(value as i32)
    } else {
        None
    }
}

/// One step of the look whether the process that the pid file names runs. It
/// starts with `PidCheck::ReadLine`.
pub fn already_running(check: PidCheck, reply: PidReply) -> (next: PidCheck)
    requires
        answers(check, reply),
    ensures
        next == check_after(check, reply),
{
    match (check, reply) {
        (_, PidReply::Line(line)) => match recorded_pid(line.as_str()) {
            Some(pid) => PidCheck::Probe(pid),
            None => PidCheck::Answer(None),
        },
        (PidCheck::Probe(pid), PidReply::Kill(result)) => {
            if result == 0 {
                PidCheck::Answer(Some(pid))
            } else {
                PidCheck::Answer(None)
            }
        },
        (_, _) => PidCheck::Answer(None),
    }
}

/// What is written to the pid file of process `pid`.
pub fn write_pidfile(pid: i32) -> (text: String)
    ensures
        text@ == pid_text(pid as int),
{
    let mut text: String = String::new();
    if pid < 0 {
        text.append("-");
        proof {
            reveal_strlit("-");
        }
        assert(text@ =~= seq!['-']);
        append_decimal(&mut text, (-(pid as i64)) as u32);
    } else {
        append_decimal(&mut text, pid as u32);
        assert(text@ =~= decimal(pid as nat));
    }
    text
}

/// Appends the decimal notation of a number.
fn append_decimal(text: &mut String, n: u32)
    ensures
        final(text)@ == old(text)@ + decimal(n as nat),
    decreases n,
{
    if n >= 10 {
        append_decimal(text, n / 10);
    }
    text.append(digit_str(n % 10));
    assert(text@ =~= old(text)@ + decimal(n as nat));
}

/// The text of one digit.
fn digit_str(digit: u32) -> (text: &'static str)
    requires
        digit < 10,
    ensures
        text@ == seq![digit_char(digit as int)],
{
    proof {
        reveal_strlit("0");
        reveal_strlit("1");
        reveal_strlit("2");
        reveal_strlit("3");
        reveal_strlit("4");
        reveal_strlit("5");
        reveal_strlit("6");
        reveal_strlit("7");
        reveal_strlit("8");
        reveal_strlit("9");
    }
    match digit {
        0 => "0",
        1 => "1",
        2 => "2",
        3 => "3",
        4 => "4",
        5 => "5",
        6 => "6",
        7 => "7",
        8 => "8",
        _ => "9",
    }
}

/// Decimal notation is made of digits, and denotes the number.
proof fn lemma_decimal(n: nat)
    ensures
        decimal(n).len() > 0,
        forall|i: int| 0 <= i < decimal(n).len() ==> is_digit(#[trigger] decimal(n)[i]),
        digits_value(decimal(n)) == n,
    decreases n,
{
    let text: Seq<char> = decimal(n);
    if n < 10 {
        assert(text.drop_last() =~= Seq::empty());
        reveal_with_fuel(digits_value, 2);
    } else {
        lemma_decimal(n / 10);
        assert(text.drop_last() =~= decimal(n / 10));
    }
}

/// What is written to a pid file is read back from it, for every process id.
pub proof fn law_pid_file_reads_back(pid: i32)
    ensures
        recorded(pid_text(pid as int)) == Some(pid),
{
    let text: Seq<char> = pid_text(pid as int);
    if pid < 0 {
        lemma_decimal((-pid) as nat);
        assert(text.skip(1) =~= decimal((-pid) as nat));
    } else {
        lemma_decimal(pid as nat);
        assert(is_digit(decimal(pid as nat)[0]));
    }
}

/// A line holds no process id if anything but a digit follows its first
/// character: a line end, for one, makes the pid file void.
pub proof fn law_only_digits_follow(line: Seq<char>, at: int)
    requires
        0 < at < line.len(),
        !is_digit(line[at]),
    ensures
        recorded(line) == None::<i32>,
{
    let digits: Seq<char> = unsigned_part(line);
    if is_signed(line) {
        assert(digits[at - 1] == line[at]);
    } else {
        assert(digits[at] == line[at]);
    }
}

/// A process that wrote its pid file is found by a look at it as long as signal 0
/// reaches it, and not found once it does not.
pub proof fn law_writer_is_found(pid: i32, line: String, result: i32)
    requires
        line@ == pid_text(pid as int),
    ensures
        check_after(PidCheck::ReadLine, PidReply::Line(line)) == PidCheck::Probe(pid),
        check_after(PidCheck::Probe(pid), PidReply::Kill(result)) == PidCheck::Answer(
            if result == 0 {
                Some(pid)
            } else {
                None
            },
        ),
{
    law_pid_file_reads_back(pid);
}

/// How a line is read, character by character. An empty line holds no process id; a digit
/// after nothing, or after a sign alone, is one; and a further digit multiplies by ten and
/// counts in the direction of the sign. What does not fit in 32 bits never fits again, and
/// anything but a digit voids the line.
pub proof fn law_line_is_read_digit_by_digit(
    line: &str,
    c: char,
    longer: &str,
    pid: Option<i32>,
    next: Option<i32>,
)
    requires
        longer@ == line@.push(c),
        call_ensures(recorded_pid, (line,), pid),
        call_ensures(recorded_pid, (longer,), next),
    ensures
        line@.len() == 0 ==> pid is None,
        !('0' <= c <= '9') ==> next is None,
        '0' <= c <= '9' ==> {
            let digit: int = c as int - '0' as int;
            if line@.len() == 0 || line@ == seq!['+'] {
                next matches Some(n) && n == digit
            } else if line@ == seq!['-'] {
                next matches Some(n) && n == -digit
            } else {
                match pid {
                    Some(before) => {
                        let value: int = if line@[0] == '-' {
                            before * 10 - digit
                        } else {
                            before * 10 + digit
                        };
                        if i32::MIN <= value <= i32::MAX {
                            next matches Some(n) && n == value
                        } else {
                            next is None
                        }
                    },
                    None => next is None,
                }
            }
        },
{
    let digits: Seq<char> = unsigned_part(line@);
    let more: Seq<char> = unsigned_part(longer@);
    if !('0' <= c <= '9') {
        if line@.len() == 0 {
            assert(longer@[0] == c);
        } else {
            law_only_digits_follow(longer@, line@.len() as int);
        }
    } else {
        assert(longer@.last() == c);
        assert(line@.len() > 0 ==> longer@[0] == line@[0]);
        assert(more =~= digits.push(c));
        assert(more.drop_last() =~= digits);
        assert(digits_value(more) == digits_value(digits) * 10 + (c as int - '0' as int));
        if line@.len() == 1 && is_signed(line@) {
            assert(line@ =~= seq![line@[0]]);
        }
        if forall|i: int| 0 <= i < digits.len() ==> is_digit(#[trigger] digits[i]) {
            lemma_digits_value_grows(digits, 0);
            assert(digits.take(0) =~= Seq::empty());
            assert forall|i: int| 0 <= i < more.len() implies is_digit(#[trigger] more[i]) by {
                if i < digits.len() {
                    assert(is_digit(digits[i]));
                }
            }
        } else {
            let i: int = choose|i: int| 0 <= i < digits.len() && !is_digit(#[trigger] digits[i]);
            assert(!is_digit(more[i]));
        }
    }
}

/// The text of a process id below ten is one digit; before it stands a minus sign if the
/// id is negative.
pub proof fn law_short_pid_text(pid: i32, text: String)
    requires
        -10 < pid < 10,
        call_ensures(write_pidfile, (pid,), text),
    ensures
        pid >= 0 ==> text@.len() == 1 && text@[0] as int == '0' as int + pid,
        pid < 0 ==> text@.len() == 2 && text@[0] == '-' && text@[1] as int == '0' as int - pid,
{
}

/// The text of a longer process id is that of the id without its last digit, and then that
/// digit.
pub proof fn law_long_pid_text(pid: i32, shorter: i32, text: String, beginning: String)
    requires
        pid >= 10 && shorter == pid / 10 || pid <= -10 && shorter == -(-pid / 10),
        call_ensures(write_pidfile, (pid,), text),
        call_ensures(write_pidfile, (shorter,), beginning),
    ensures
        text@.len() == beginning@.len() + 1,
        text@.drop_last() == beginning@,
        text@.last() as int == '0' as int + (if pid < 0 {
            -pid % 10
        } else {
            pid as int % 10
        }),
{
    assert(text@.drop_last() =~= beginning@);
}

/// What one process writes, another reads: the id that was written, and no other.
pub proof fn law_what_is_written_is_read(
    pid: i32,
    text: String,
    line: &str,
    read: Option<i32>,
    next: PidCheck,
)
    requires
        call_ensures(write_pidfile, (pid,), text),
        line@ == text@,
        call_ensures(recorded_pid, (line,), read),
        call_ensures(already_running, (PidCheck::ReadLine, PidReply::Line(text)), next),
    ensures
        read == Some(pid),
        next == PidCheck::Probe(pid),
{
    law_pid_file_reads_back(pid);
}

/// The process that is signalled is the one that the line names; without such a line none
/// is, and none runs.
pub proof fn law_recorded_process_is_probed(
    text: String,
    line: &str,
    pid: Option<i32>,
    next: PidCheck,
    absent: PidCheck,
)
    requires
        line@ == text@,
        call_ensures(recorded_pid, (line,), pid),
        call_ensures(already_running, (PidCheck::ReadLine, PidReply::Line(text)), next),
        call_ensures(already_running, (PidCheck::ReadLine, PidReply::NotOpened), absent),
    ensures
        pid matches Some(recorded) ==> next == PidCheck::Probe(recorded),
        pid is None ==> next == PidCheck::Answer(None),
        absent == PidCheck::Answer(None),
{
}

/// The process that was signalled runs if and only if `kill` returned 0.
pub proof fn law_probe_tells(pid: i32, result: i32, next: PidCheck)
    requires
        call_ensures(already_running, (PidCheck::Probe(pid), PidReply::Kill(result)), next),
    ensures
        next == PidCheck::Answer(Some(pid)) <==> result == 0,
        next == PidCheck::Answer(None) <==> result != 0,
{
}

/// Every reply can be handed in where it is waited for.
pub proof fn law_replies_are_taken(text: String, pid: i32, result: i32)
    ensures
        call_requires(already_running, (PidCheck::ReadLine, PidReply::NotOpened)),
        call_requires(already_running, (PidCheck::ReadLine, PidReply::Line(text))),
        call_requires(already_running, (PidCheck::Probe(pid), PidReply::Kill(result))),
{
}

} // verus!
