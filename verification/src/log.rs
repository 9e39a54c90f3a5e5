use vstd::prelude::*;

use crate::errors::SanitizerMessage;
use crate::text::{chars_of, push_chars, push_str, string_of};

verus! {

/// The severity of a log message. `Error` stops the sanitization.
#[derive(Copy, Clone, Debug, PartialEq, Eq, Structural)]
pub enum LogLevel {
    Trace,
    Debug,
    Info,
    Warn,
    Error,
}

/// The position of a level in the order `Trace < Debug < Info < Warn < Error`.
pub open spec fn level_rank(l: LogLevel) -> nat {
    match l {
        LogLevel::Trace => 0,
        LogLevel::Debug => 1,
        LogLevel::Info => 2,
        LogLevel::Warn => 3,
        LogLevel::Error => 4,
    }
}

/// A trait for logging messages
pub trait Log: Sync {
    fn log<T: Into<SanitizerMessage>>(&self, level: LogLevel, message: T);

    fn trace<T: Into<SanitizerMessage>>(&self, message: T) {
        self.log(LogLevel::Trace, message);
    }

    fn debug<T: Into<SanitizerMessage>>(&self, message: T) {
        self.log(LogLevel::Debug, message);
    }

    fn info<T: Into<SanitizerMessage>>(&self, message: T) {
        self.log(LogLevel::Info, message);
    }

    fn warn<T: Into<SanitizerMessage>>(&self, message: T) {
        self.log(LogLevel::Warn, message);
    }

    fn error<T: Into<SanitizerMessage>>(&self, message: T) {
        self.log(LogLevel::Error, message);
    }
}

impl LogLevel {
    /// Returns `Err` if `self == Error`, otherwise returns `Ok` and logs the message
    pub fn handle<T: Into<SanitizerMessage>, L: Log>(self, logger: &L, message: T) -> (res: Result<(), T>)
        ensures
            self == LogLevel::Error ==> res == Err::<(), T>(message),
            self != LogLevel::Error ==> res is Ok,
    {
        if self == LogLevel::Error {
            Err(message)
        } else {
            logger.log(self, message);
            Ok(())
        }
    }

    /// Whether this level is at or above `threshold`.
    pub fn at_least(self, threshold: LogLevel) -> (res: bool)
        ensures
            res == (level_rank(self) >= level_rank(threshold)),
    {
        Self::rank(self) >= Self::rank(threshold)
    }

    fn rank(l: LogLevel) -> (res: u8)
        ensures
            res == level_rank(l),
    {
        match l {
            LogLevel::Trace => 0,
            LogLevel::Debug => 1,
            LogLevel::Info => 2,
            LogLevel::Warn => 3,
            LogLevel::Error => 4,
        }
    }

    /// The five-character label under which a level is written to the console and log files.
    pub fn label(self) -> (res: &'static str)
        ensures
            res@ == level_label(self),
    {
        match self {
            LogLevel::Trace => "TRACE",
            LogLevel::Debug => "DEBUG",
            LogLevel::Info => " INFO",
            LogLevel::Warn => " WARN",
            LogLevel::Error => "ERROR",
        }
    }
}

/// The label of each level.
pub open spec fn level_label(l: LogLevel) -> Seq<char> {
    match l {
        LogLevel::Trace => "TRACE"@,
        LogLevel::Debug => "DEBUG"@,
        LogLevel::Info => " INFO"@,
        LogLevel::Warn => " WARN"@,
        LogLevel::Error => "ERROR"@,
    }
}

/// A message sent to the logging thread: its source (the input's index), level and content.
#[derive(Debug)]
pub struct LoggerMessage {
    pub source: usize,
    pub level: LogLevel,
    pub message: SanitizerMessage,
}

/// A logger that discards all messages
#[derive(Default)]
pub struct NullLogger;

impl Log for NullLogger {
    fn log<T: Into<SanitizerMessage>>(&self, level: LogLevel, message: T) {
    }
}

/// `10` to the power `k`.
pub open spec fn pow10(k: nat) -> nat
    decreases k,
{
    if k == 0 {
        1
    } else {
        10 * pow10((k - 1) as nat)
    }
}

/// The width needed to print the source indices below `n`: the least `k` with `10^k >= n`.
pub open spec fn is_log_width(n: nat, k: nat) -> bool {
    pow10(k) >= n && (k == 0 || pow10((k - 1) as nat) < n)
}

/// The column width of the source index in log lines for `max_size` sources:
/// `ceil(log10(max_size))`, and 0 when there is at most one source.
pub fn log_width(max_size: usize) -> (res: usize)
    ensures
        is_log_width(max_size as nat, res as nat),
{
    let mut k: usize = 0;
    let mut p: u128 = 1;
    while p < max_size as u128
        invariant
            p == pow10(k as nat),
            p >= 1,
            k == 0 || pow10((k - 1) as nat) < max_size,
            k <= 20,
        decreases 21 - k,
    {
        assert(p < max_size);
        proof {
            if k >= 20 {
                lemma_pow10_big(k as nat);
            }
        }
        p = p * 10;
        k = k + 1;
    }
    k
}

proof fn lemma_pow10_big(k: nat)
    requires
        k >= 20,
    ensures
        pow10(k) >= 100000000000000000000,
    decreases k,
{
    reveal_with_fuel(pow10, 21);
    if k > 20 {
        lemma_pow10_big((k - 1) as nat);
        assert(pow10(k) == 10 * pow10((k - 1) as nat));
    }
}

/// Where a message of some level goes, by the console and file thresholds.
#[derive(Debug, Clone, Copy, PartialEq, Eq, Structural)]
pub struct LogRoute {
    /// The message is an error, which marks the run as failed.
    pub is_error: bool,
    /// The message is printed on the console.
    pub console: bool,
    /// The message is written to its source's log file.
    pub file: bool,
}

/// Routes a message of `level`: to the console when at or above `console`, to the log file when
/// at or above `files`.
pub fn route(level: LogLevel, console: LogLevel, files: LogLevel) -> (res: LogRoute)
    ensures
        res.is_error == (level == LogLevel::Error),
        res.console == (level_rank(level) >= level_rank(console)),
        res.file == (level_rank(level) >= level_rank(files)),
{
    LogRoute {
        is_error: level == LogLevel::Error,
        console: level.at_least(console),
        file: level.at_least(files),
    }
}

/// The decimal digits of `n`.
pub open spec fn decimal(n: nat) -> Seq<char>
    decreases n,
{
    if n < 10 {
        seq![(('0' as u8) + n) as char]
    } else {
        decimal(n / 10) + seq![(('0' as u8) + n % 10) as char]
    }
}

/// `s` right-aligned in a field of `width` characters, padded with spaces.
pub open spec fn pad_left(s: Seq<char>, width: nat) -> Seq<char> {
    if s.len() >= width {
        s
    } else {
        Seq::new((width - s.len()) as nat, |i: int| ' ') + s
    }
}

/// The text of `s` without ANSI escape sequences (`strip_ansi_escapes::strip_str`).
pub uninterp spec fn ansi_stripped(s: Seq<char>) -> Seq<char>;

/// Calls `strip_ansi_escapes::strip_str`.
#[verifier::external_body]
fn strip_ansi(s: &str) -> (res: String)
    ensures
        res@ == ansi_stripped(s@),
{
    strip_ansi_escapes::strip_str(s)
}

fn decimal_chars(n: usize) -> (res: Vec<char>)
    ensures
        res@ == decimal(n as nat),
    decreases n,
{
    let digit = ((n % 10) as u8 + ('0' as u8)) as char;
    assert(digit == (('0' as u8) + (n % 10) as nat) as char);
    if n < 10 {
        let mut v: Vec<char> = Vec::new();
        v.push(digit);
        assert(v@ =~= seq![digit]);
        v
    } else {
        let mut v = decimal_chars(n / 10);
        v.push(digit);
        v
    }
}

/// One line of a log file: `[timestamp] (source) LEVEL: message`, the source right-aligned to
/// `width` columns and the message without ANSI escapes.
pub open spec fn file_log_line(
    timestamp: Seq<char>,
    source: nat,
    width: nat,
    level: LogLevel,
    message: Seq<char>,
) -> Seq<char> {
    "["@ + timestamp + "] ("@ + pad_left(decimal(source), width) + ") "@ + level_label(level)
        + ": "@ + ansi_stripped(message)
}

/// Formats a line of a log file for a message of `level` from input `source`.
pub fn format_file_line(
    timestamp: &str,
    source: usize,
    width: usize,
    level: LogLevel,
    message: &str,
) -> (res: String)
    ensures
        res@ == file_log_line(timestamp@, source as nat, width as nat, level, message@),
{
    let digits = decimal_chars(source);
    let mut out = chars_of("[");
    push_str(&mut out, timestamp);
    push_str(&mut out, "] (");
    let mut k: usize = digits.len();
    let ghost start = out@;
    while k < width
        invariant
            digits.len() <= k <= width || (k == digits.len() && width < k),
            out@ == start + Seq::new((k - digits.len()) as nat, |i: int| ' '),
        decreases width - k,
    {
        out.push(' ');
        proof {
            assert(Seq::new((k + 1 - digits.len()) as nat, |i: int| ' ') =~= Seq::new(
                (k - digits.len()) as nat,
                |i: int| ' ',
            ).push(' '));
        }
        k = k + 1;
    }
    proof {
        if digits@.len() >= width {
            assert(Seq::new(0, |i: int| ' ') + digits@ =~= digits@);
        }
    }
    push_chars(&mut out, &digits);
    push_str(&mut out, ") ");
    push_str(&mut out, level.label());
    push_str(&mut out, ": ");
    let stripped = strip_ansi(message);
    push_str(&mut out, stripped.as_str());
    proof {
        let pad = pad_left(decimal(source as nat), width as nat);
        assert(out@ =~= file_log_line(timestamp@, source as nat, width as nat, level, message@));
    }
    string_of(&out)
}

} // verus!
