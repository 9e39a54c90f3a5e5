use vstd::prelude::*;

use crate::sanitizer_engine::errors::LoggerError;
use crate::sanitizer_engine::log::{LogLevel, LoggerTrait};

verus! {

/// A rule that can replace undesired values: the replacement and the level at which
/// the undesired value is logged (`Error` stops the sanitization).
#[derive(Clone, Debug)]
pub struct RuleWithReplace<R: Default> {
    replace: R,
    level: LogLevel,
}

impl<R: Default> RuleWithReplace<R> {
    /// The replacement value.
    pub closed spec fn replacement(&self) -> R {
        self.replace
    }

    /// The log level of the rule.
    pub closed spec fn rule_level(&self) -> LogLevel {
        self.level
    }

    pub fn new(replace: R, level: LogLevel) -> (res: Self)
        ensures
            res.replacement() == replace,
            res.rule_level() == level,
    {
        Self { replace, level }
    }

    /// Returns `Err` when the level is `Error`; otherwise logs the error and returns `Ok`
    /// with `replace` applied to the replacement value.
    pub fn handle<T, F: FnOnce(&R) -> T, E: Into<LoggerError>, L: LoggerTrait>(
        &self,
        logger: &L,
        replace: F,
        error: E,
    ) -> (res: Result<T, E>)
        requires
            replace.requires((&self.replacement(),)),
        ensures
            self.rule_level() == LogLevel::Error ==> res == Err::<T, E>(error),
            self.rule_level() != LogLevel::Error ==> (res matches Ok(t) && replace.ensures(
                (&self.replacement(),),
                t,
            )),
    {
        match self.level.handle(logger, error) {
            Err(e) => Err(e),
            Ok(()) => Ok(replace(&self.replace)),
        }
    }
}

/// A rule with a value (such as a limit) and the level at which breaking it is logged.
#[derive(Copy, Clone, Debug)]
pub struct RuleWithValue<T: 'static> {
    pub value: T,
    pub level: LogLevel,
}

impl<T> RuleWithValue<T> {
    pub fn new(value: T, level: LogLevel) -> (res: Self)
        ensures
            res.value == value,
            res.level == level,
    {
        Self { value, level }
    }

    /// Returns `Err` when the level is `Error`; otherwise logs the error and returns `Ok`.
    pub fn handle<E: Into<LoggerError>, L: LoggerTrait>(&self, logger: &L, error: E) -> (res: Result<(), E>)
        ensures
            self.level == LogLevel::Error ==> res == Err::<(), E>(error),
            self.level != LogLevel::Error ==> res is Ok,
    {
        self.level.handle(logger, error)
    }
}

} // verus!
