use vstd::prelude::*;

use crate::sanitizer_engine::errors::LoggerError;

verus! {

/// A sink for the errors that the engine logs.
pub trait LoggerTrait {
    fn log<E: Into<LoggerError>>(&self, level: LogLevel, error: E);

    fn trace<E: Into<LoggerError>>(&self, error: E) {
        self.log(LogLevel::Trace, error);
    }

    fn debug<E: Into<LoggerError>>(&self, error: E) {
        self.log(LogLevel::Debug, error);
    }

    fn info<E: Into<LoggerError>>(&self, error: E) {
        self.log(LogLevel::Info, error);
    }

    fn warn<E: Into<LoggerError>>(&self, error: E) {
        self.log(LogLevel::Warn, error);
    }

    fn error<E: Into<LoggerError>>(&self, error: E) {
        self.log(LogLevel::Error, error);
    }
}

/// The severity of a logged error. `Error` stops the sanitization.
#[derive(Copy, Clone, Debug, PartialEq, Eq, Structural)]
pub enum LogLevel {
    Trace,
    Debug,
    Info,
    Warn,
    Error,
}

impl LogLevel {
    /// Returns `Err` if `self == Error`, otherwise returns `Ok` and logs the error message
    pub fn handle<E: Into<LoggerError>, L: LoggerTrait>(self, logger: &L, error: E) -> (res: Result<(), E>)
        ensures
            self == LogLevel::Error ==> res == Err::<(), E>(error),
            self != LogLevel::Error ==> res is Ok,
    {
        if self == LogLevel::Error {
            Err(error)
        } else {
            logger.log(self, error);
            Ok(())
        }
    }
}

/// A logged error with its source (the input's index) and level.
#[derive(Debug)]
pub struct LoggerMessage {
    pub source: usize,
    pub level: LogLevel,
    pub error: LoggerError,
}

} // verus!
