//! The text of log lines.

use vstd::prelude::*;
use vstd::string::{StrSliceExecFns, StringExecFns};

verus! {

/// How much a log line holds.
#[derive(Clone, Copy, Debug, PartialEq, Eq, Structural)]
pub enum LogFormat {
    /// The message alone.
    Simple,
    /// The message between the time, the level and the place it comes from.
    Complete,
}

impl LogFormat {
    pub fn is_simple(&self) -> (b: bool)
        ensures
            b == (*self == LogFormat::Simple),
    {
        matches!(self, LogFormat::Simple)
    }

    pub fn is_complete(&self) -> (b: bool)
        ensures
            b == (*self == LogFormat::Complete),
    {
        matches!(self, LogFormat::Complete)
    }
}

/// The weight of a message.
#[derive(Clone, Copy, Debug, PartialEq, Eq, Structural)]
pub enum Level {
    Error,
    Warn,
    Info,
    Debug,
    Trace,
}

/// The letter that stands for a level: its first.
pub open spec fn spec_format_level(level: Level) -> char {
    match level {
        Level::Error => 'E',
        Level::Warn => 'W',
        Level::Info => 'I',
        Level::Debug => 'D',
        Level::Trace => 'T',
    }
}

pub fn format_level(level: Level) -> (c: char)
    ensures
        c == spec_format_level(level),
{
    match level {
        Level::Error => 'E',
        Level::Warn => 'W',
        Level::Info => 'I',
        Level::Debug => 'D',
        Level::Trace => 'T',
    }
}

/// The character of a decimal digit.
pub open spec fn digit_char(d: int) -> char {
    (d + 48) as char
}

/// `n` in decimal digits, without leading zeros.
pub open spec fn decimal(n: nat) -> Seq<char>
    decreases n,
{
    if n < 10 {
        seq![digit_char(n as int)]
    } else {
        decimal(n / 10).push(digit_char((n % 10) as int))
    }
}

/// `n` in decimal digits, with zeros in front up to `width` digits.
pub open spec fn decimal_padded(n: nat, width: nat) -> Seq<char>
    decreases width,
{
    if decimal(n).len() >= width {
        decimal(n)
    } else {
        seq!['0'] + decimal_padded(n, (width - 1) as nat)
    }
}

/// A span of `micros` microseconds as hours, minutes, seconds, milliseconds
/// and microseconds: `h:mm:ss.mmm,uuu`.
pub open spec fn spec_duration_text(micros: nat) -> Seq<char> {
    let millis = micros / 1000;
    let second = millis / 1000;
    let minute = second / 60;
    let hour = minute / 60;
    decimal(hour) + seq![':'] + decimal_padded(minute % 60, 2) + seq![':'] + decimal_padded(
        second % 60,
        2,
    ) + seq!['.'] + decimal_padded(millis % 1000, 3) + seq![','] + decimal_padded(
        micros % 1000,
        3,
    )
}

/// A span of `micros` microseconds in milliseconds with three decimals.
pub open spec fn spec_millis_text(micros: nat) -> Seq<char> {
    decimal(micros / 1000) + seq!['.'] + decimal_padded(micros % 1000, 3)
}

/// `s` ends with the separator and `mod.rs`.
pub open spec fn ends_with_mod_file(s: Seq<char>, separator: char) -> bool {
    s.len() >= 7 && s.subrange(s.len() - 7, s.len() as int) == seq![
        separator,
        'm',
        'o',
        'd',
        '.',
        'r',
        's',
    ]
}

/// `s` without the separator and `mod.rs` at its end, where it ends so.
pub open spec fn without_mod_file(s: Seq<char>, separator: char) -> Seq<char> {
    if ends_with_mod_file(s, separator) {
        s.subrange(0, s.len() - 7)
    } else {
        s
    }
}

/// The index after the last separator before `i`, or 0 where there is none.
pub open spec fn after_last_separator(s: Seq<char>, separator: char, i: int) -> int
    decreases i,
{
    if i <= 0 || i > s.len() {
        0
    } else if s[i - 1] == separator {
        i
    } else {
        after_last_separator(s, separator, i - 1)
    }
}

/// The name by which a source file is shown: the path without a `mod.rs` at
/// its end, and of that what follows the last separator.
pub open spec fn spec_short_name(file: Seq<char>, separator: char) -> Seq<char> {
    let s = without_mod_file(file, separator);
    s.subrange(after_last_separator(s, separator, s.len() as int), s.len() as int)
}

/// A place in the sources as shown in a log line: the short name of the
/// file, a colon and the line.
pub open spec fn spec_source_text(file: Seq<char>, line: nat, separator: char) -> Seq<char> {
    spec_short_name(file, separator) + seq![':'] + decimal(line)
}

/// The text of a log line.
///
/// In the simple format it is the message and a line feed. In the complete
/// format it holds the time since the start, the letter of the level, the
/// message, the place in the sources, and the time since the line before in
/// milliseconds, with a blank between each two and `ms` and a line feed at
/// the end.
pub open spec fn spec_log_line(
    format: LogFormat,
    elapsed: nat,
    since_last: nat,
    level: Level,
    file: Seq<char>,
    line: nat,
    message: Seq<char>,
    separator: char,
) -> Seq<char> {
    match format {
        LogFormat::Simple => message + seq!['\n'],
        LogFormat::Complete => spec_duration_text(elapsed) + seq![' ', spec_format_level(level), ' ']
            + message + seq![' '] + spec_source_text(file, line, separator) + seq![' ']
            + spec_millis_text(since_last) + seq!['m', 's', '\n'],
    }
}

/// The time from `earlier` to `later`, zero where `later` is the earlier of
/// the two.
pub open spec fn span_between(earlier: u64, later: u64) -> nat {
    if later >= earlier {
        (later - earlier) as nat
    } else {
        0
    }
}

fn digit_text(d: u64) -> (s: &'static str)
    requires
        d < 10,
    ensures
        s@ == seq![digit_char(d as int)],
{
    proof {
        reveal_strlit("0");
        reveal_strlit("1");
        reveal_strlit("2");
        reveal_strlit("3");
        reveal_strlit("4");
        reveal_strlit("5");
        reveal_strlit("6");
        reveal_strlit("7");
        reveal_strlit("8");
        reveal_strlit("9");
    }
    let s = match d {
        0 => "0",
        1 => "1",
        2 => "2",
        3 => "3",
        4 => "4",
        5 => "5",
        6 => "6",
        7 => "7",
        8 => "8",
        _ => "9",
    };
    assert(s@ =~= seq![digit_char(d as int)]);
    s
}

fn level_text(level: Level) -> (s: &'static str)
    ensures
        s@ == seq![spec_format_level(level)],
{
    proof {
        reveal_strlit("E");
        reveal_strlit("W");
        reveal_strlit("I");
        reveal_strlit("D");
        reveal_strlit("T");
    }
    let s = match level {
        Level::Error => "E",
        Level::Warn => "W",
        Level::Info => "I",
        Level::Debug => "D",
        Level::Trace => "T",
    };
    assert(s@ =~= seq![spec_format_level(level)]);
    s
}

/// Adds `n` in decimal digits to the end of `out`.
pub fn append_decimal(out: &mut String, n: u64)
    ensures
        final(out)@ == old(out)@ + decimal(n as nat),
    decreases n,
{
    if n >= 10 {
        append_decimal(out, n / 10);
    }
    out.append(digit_text(n % 10));
    proof {
        if n >= 10 {
            assert(final(out)@ =~= old(out)@ + decimal(n as nat));
        }
    }
}

/// The number of decimal digits of a number below 1000.
proof fn lemma_decimal_len(n: nat)
    requires
        n < 1000,
    ensures
        decimal(n).len() == if n < 10 {
            1nat
        } else if n < 100 {
            2nat
        } else {
            3nat
        },
{
    reveal_with_fuel(decimal, 3);
}

/// Adds `n` in two decimal digits to the end of `out`.
fn append_two_digits(out: &mut String, n: u64)
    requires
        n < 100,
    ensures
        final(out)@ == old(out)@ + decimal_padded(n as nat, 2),
{
    proof {
        lemma_decimal_len(n as nat);
        reveal_with_fuel(decimal_padded, 3);
        reveal_strlit("0");
    }
    if n < 10 {
        out.append("0");
    }
    append_decimal(out, n);
    assert(final(out)@ =~= old(out)@ + decimal_padded(n as nat, 2));
}

/// Adds `n` in three decimal digits to the end of `out`.
fn append_three_digits(out: &mut String, n: u64)
    requires
        n < 1000,
    ensures
        final(out)@ == old(out)@ + decimal_padded(n as nat, 3),
{
    proof {
        lemma_decimal_len(n as nat);
        reveal_with_fuel(decimal_padded, 4);
        reveal_strlit("0");
    }
    if n < 100 {
        out.append("0");
    }
    if n < 10 {
        out.append("0");
    }
    append_decimal(out, n);
    assert(final(out)@ =~= old(out)@ + decimal_padded(n as nat, 3));
}

/// A span of time in microseconds, shown as `h:mm:ss.mmm,uuu`.
#[derive(Clone, Copy, Debug, PartialEq, Eq, Structural)]
pub struct DurationFormat(pub u64);

impl DurationFormat {
    pub fn to_text(&self) -> (text: String)
        ensures
            text@ == spec_duration_text(self.0 as nat),
    {
        let millis = self.0 / 1000;
        let second = millis / 1000;
        let minute = second / 60;
        let hour = minute / 60;
        proof {
            reveal_strlit(":");
            reveal_strlit(".");
            reveal_strlit(",");
        }
        let mut text = String::new();
        append_decimal(&mut text, hour);
        text.append(":");
        append_two_digits(&mut text, minute % 60);
        text.append(":");
        append_two_digits(&mut text, second % 60);
        text.append(".");
        append_three_digits(&mut text, millis % 1000);
        text.append(",");
        append_three_digits(&mut text, self.0 % 1000);
        assert(text@ =~= spec_duration_text(self.0 as nat));
        text
    }
}

/// A place in the sources, shown as the short name of the file, a colon and
/// the line.
#[derive(Clone, Copy, Debug)]
pub struct SourceFileFormat<'a> {
    pub file: &'a str,
    pub line: u32,
}

impl<'a> SourceFileFormat<'a> {
    pub fn new(file: &'a str, line: u32) -> (place: Self)
        ensures
            place.file@ == file@,
            place.line == line,
    {
        Self { file, line }
    }

    /// The name by which the file is shown, for paths written with
    /// `separator`.
    pub fn short_name(&self, separator: char) -> (name: &'a str)
        ensures
            name@ == spec_short_name(self.file@, separator),
    {
        let len = self.file.unicode_len();
        let mut end = len;
        if len >= 7 && self.file.get_char(len - 7) == separator && self.file.get_char(len - 6)
            == 'm' && self.file.get_char(len - 5) == 'o' && self.file.get_char(len - 4) == 'd'
            && self.file.get_char(len - 3) == '.' && self.file.get_char(len - 2) == 'r'
            && self.file.get_char(len - 1) == 's' {
            end = len - 7;
            assert(self.file@.subrange(len - 7, len as int) =~= seq![
                separator,
                'm',
                'o',
                'd',
                '.',
                'r',
                's',
            ]);
        } else {
            proof {
                if len >= 7 {
                    let tail = self.file@.subrange(len - 7, len as int);
                    assert(tail[0] == self.file@[len - 7]);
                    assert(tail[1] == self.file@[len - 6]);
                    assert(tail[2] == self.file@[len - 5]);
                    assert(tail[3] == self.file@[len - 4]);
                    assert(tail[4] == self.file@[len - 3]);
                    assert(tail[5] == self.file@[len - 2]);
                    assert(tail[6] == self.file@[len - 1]);
                }
            }
        }
        let stem = self.file.substring_char(0, end);
        assert(stem@ == without_mod_file(self.file@, separator));
        let mut start = end;
        while start > 0 && stem.get_char(start - 1) != separator
            invariant
                start <= end,
                end == stem@.len(),
                after_last_separator(stem@, separator, start as int) == after_last_separator(
                    stem@,
                    separator,
                    end as int,
                ),
            decreases start,
        {
            start -= 1;
        }
        stem.substring_char(start, end)
    }

    pub fn to_text(&self, separator: char) -> (text: String)
        ensures
            text@ == spec_source_text(self.file@, self.line as nat, separator),
    {
        proof {
            reveal_strlit(":");
        }
        let mut text = String::from_str(self.short_name(separator));
        text.append(":");
        append_decimal(&mut text, self.line as u64);
        text
    }
}

/// The state of a logger: its format, the time it was started at and the
/// time of the line before, both in microseconds of one clock.
#[derive(Clone, Copy, Debug, PartialEq, Eq, Structural)]
pub struct Logger {
    pub format: LogFormat,
    pub start_time: u64,
    pub last_time: u64,
}

impl Logger {
    pub fn new(format: LogFormat, start_time: u64) -> (logger: Self)
        ensures
            logger == (Logger { format, start_time, last_time: start_time }),
    {
        Self { format, start_time, last_time: start_time }
    }

    /// Whether a caller may skip making up a message: never.
    pub fn enabled(&self) -> (b: bool)
        ensures
            !b,
    {
        false
    }

    /// The text of the line for a message that is logged at the time `now`,
    /// and the logger after it. In the complete format the logger keeps `now`
    /// as the time of its last line; in the simple format it keeps no time.
    pub fn log(
        &mut self,
        now: u64,
        level: Level,
        file: &str,
        line: u32,
        message: &str,
        separator: char,
    ) -> (text: String)
        ensures
            text@ == spec_log_line(
                old(self).format,
                span_between(old(self).start_time, now),
                span_between(old(self).last_time, now),
                level,
                file@,
                line as nat,
                message@,
                separator,
            ),
            final(self).format == old(self).format,
            final(self).start_time == old(self).start_time,
            final(self).last_time == if old(self).format == LogFormat::Simple {
                old(self).last_time
            } else {
                now
            },
    {
        proof {
            reveal_strlit(" ");
            reveal_strlit(".");
            reveal_strlit("\n");
            reveal_strlit("ms\n");
        }
        if self.format.is_simple() {
            let mut text = String::from_str(message);
            text.append("\n");
            return text;
        }
        let since_last = if now >= self.last_time {
            now - self.last_time
        } else {
            0
        };
        self.last_time = now;
        let elapsed = if now >= self.start_time {
            now - self.start_time
        } else {
            0
        };
        let mut text = DurationFormat(elapsed).to_text();
        text.append(" ");
        text.append(level_text(level));
        text.append(" ");
        text.append(message);
        text.append(" ");
        let place = SourceFileFormat::new(file, line).to_text(separator);
        text.append(place.as_str());
        text.append(" ");
        append_decimal(&mut text, since_last / 1000);
        text.append(".");
        append_three_digits(&mut text, since_last % 1000);
        text.append("ms\n");
        assert(text@ =~= spec_log_line(
            old(self).format,
            span_between(old(self).start_time, now),
            span_between(old(self).last_time, now),
            level,
            file@,
            line as nat,
            message@,
            separator,
        ));
        text
    }
}

/// The logger that tests use: complete lines, started at the time `now`.
pub fn init_for_test(now: u64) -> (logger: Logger)
    ensures
        logger == (Logger { format: LogFormat::Complete, start_time: now, last_time: now }),
{
    Logger::new(LogFormat::Complete, now)
}

} // verus!
