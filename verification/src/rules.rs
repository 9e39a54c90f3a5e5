use vstd::prelude::*;

use crate::errors::SanitizerMessage;
use crate::log::{Log, LogLevel};

verus! {

/// The text that replaces dangerous JavaScript by default.
pub open spec fn js_replace_default() -> Seq<char> {
    "/* Blocked by Web Sanitizer: dangerous keywords found */"@
}

/// A replacement for dangerous JavaScript.
#[derive(Debug, Clone)]
pub struct JsReplace(String);

impl JsReplace {
    pub fn new(value: String) -> (res: Self)
        ensures
            res@ == value@,
    {
        JsReplace(value)
    }

    /// The replacement text.
    pub fn as_str(&self) -> (res: &str)
        ensures
            res@ == self@,
    {
        self.0.as_str()
    }
}

impl View for JsReplace {
    type V = Seq<char>;

    closed spec fn view(&self) -> Seq<char> {
        self.0@
    }
}

impl Default for JsReplace {
    fn default() -> (res: Self)
        ensures
            res@ == js_replace_default(),
    {
        JsReplace("/* Blocked by Web Sanitizer: dangerous keywords found */".to_string())
    }
}

/// The forms that a rule with a replacement takes in a policy file: a level alone (replace with
/// the default value), `true` or `false` (replace with the default value, or keep, at `warn`), a
/// replacement value (at `warn`), or a table of a replacement (a value, or `true` or `false`) and
/// a level.
#[derive(Clone, Debug)]
pub enum ReplaceSetting<R> {
    Level(LogLevel),
    Bool(bool),
    Value(R),
    ValueLevel(R, LogLevel),
    BoolLevel(bool, LogLevel),
}

/// The forms that a rule with a value takes in a policy file: a value alone (at `error`), a pair
/// of a value and a level, or a table of both.
#[derive(Clone, Debug)]
pub enum ValueSetting<T> {
    Value(T),
    Tuple(T, LogLevel),
    Table(T, LogLevel),
}

/// A rule that can replace undesired values
///
/// It holds what to replace the undesired value with (if `None`, it is not replaced)
/// and the log level of the rule (if `Error`, the sanitization stops).
#[derive(Clone, Debug)]
pub struct RuleWithReplace<R: Default> {
    replace: Option<R>,
    level: LogLevel,
}

impl<R: Default> RuleWithReplace<R> {
    /// What the undesired value is replaced with, if anything.
    pub closed spec fn replacement(&self) -> Option<R> {
        self.replace
    }

    /// The log level of the rule.
    pub closed spec fn rule_level(&self) -> LogLevel {
        self.level
    }

    pub fn new(replace: R, level: LogLevel) -> (res: Self)
        ensures
            res.replacement() == Some(replace),
            res.rule_level() == level,
    {
        Self { replace: Some(replace), level }
    }

    pub fn keep(level: LogLevel) -> (res: Self)
        ensures
            res.replacement() is None,
            res.rule_level() == level,
    {
        Self { replace: None, level }
    }

    /// A rule that replaces with `R::default()`.
    pub fn with_default(level: LogLevel) -> (res: Self)
        ensures
            res.replacement() matches Some(r) && call_ensures(R::default, (), r),
            res.rule_level() == level,
    {
        Self::new(R::default(), level)
    }

    /// The rule that a setting of a policy file describes.
    pub fn from_setting(setting: ReplaceSetting<R>) -> (res: Self)
        ensures
            match setting {
                ReplaceSetting::Level(l) => (res.replacement() matches Some(r) && call_ensures(
                    R::default,
                    (),
                    r,
                )) && res.rule_level() == l,
                ReplaceSetting::Bool(b) => (if b {
                    res.replacement() matches Some(r) && call_ensures(R::default, (), r)
                } else {
                    res.replacement() is None
                }) && res.rule_level() == LogLevel::Warn,
                ReplaceSetting::Value(r) => res.replacement() == Some(r) && res.rule_level()
                    == LogLevel::Warn,
                ReplaceSetting::ValueLevel(r, l) => res.replacement() == Some(r) && res.rule_level()
                    == l,
                ReplaceSetting::BoolLevel(b, l) => (if b {
                    res.replacement() matches Some(r) && call_ensures(R::default, (), r)
                } else {
                    res.replacement() is None
                }) && res.rule_level() == l,
            },
    {
        match setting {
            ReplaceSetting::Level(l) => Self::with_default(l),
            ReplaceSetting::Bool(b) => if b {
                Self::with_default(LogLevel::Warn)
            } else {
                Self::keep(LogLevel::Warn)
            },
            ReplaceSetting::Value(r) => Self::new(r, LogLevel::Warn),
            ReplaceSetting::ValueLevel(r, l) => Self::new(r, l),
            ReplaceSetting::BoolLevel(b, l) => if b {
                Self::with_default(l)
            } else {
                Self::keep(l)
            },
        }
    }

    /// The log level of the rule.
    pub fn level(&self) -> (res: LogLevel)
        ensures
            res == self.rule_level(),
    {
        self.level
    }

    /// What the undesired value is replaced with, if anything.
    pub fn replace(&self) -> (res: Option<&R>)
        ensures
            res == match self.replacement() {
                Some(r) => Some(&r),
                None => None::<&R>,
            },
    {
        match &self.replace {
            Some(r) => Some(r),
            None => None,
        }
    }

    /// Returns `Err` if `self.level == Error`
    /// Otherwise logs the message, calls `replace` with the contained value and returns `Ok` with the mapped value
    pub fn handle_with<T, F: FnOnce(&R) -> T, M: Into<SanitizerMessage>, L: Log>(
        &self,
        logger: &L,
        replace: F,
        message: M,
    ) -> (res: Result<Option<T>, M>)
        requires
            self.replacement() matches Some(r) ==> replace.requires((&r,)),
        ensures
            self.rule_level() == LogLevel::Error ==> res == Err::<Option<T>, M>(message),
            self.rule_level() != LogLevel::Error ==> (res matches Ok(o) && match self.replacement() {
                Some(r) => (o matches Some(t) && replace.ensures((&r,), t)),
                None => o is None,
            }),
    {
        match self.level.handle(logger, message) {
            Err(m) => Err(m),
            Ok(()) => match &self.replace {
                Some(r) => Ok(Some(replace(r))),
                None => Ok(None),
            },
        }
    }

    /// Returns `Err` if `self.level == Error`
    /// Otherwise logs the message and returns `Ok` with the replace value
    pub fn handle<M: Into<SanitizerMessage>, L: Log>(&self, logger: &L, message: M) -> (res: Result<
        Option<&R>,
        M,
    >)
        ensures
            self.rule_level() == LogLevel::Error ==> res == Err::<Option<&R>, M>(message),
            self.rule_level() != LogLevel::Error ==> res == Ok::<Option<&R>, M>(
                match self.replacement() {
                    Some(r) => Some(&r),
                    None => None::<&R>,
                },
            ),
    {
        match self.level.handle(logger, message) {
            Err(m) => Err(m),
            Ok(()) => match &self.replace {
                Some(r) => Ok(Some(r)),
                None => Ok(None),
            },
        }
    }
}

/// A rule with a value (such as a limit) and the level at which breaking it is logged.
#[derive(Copy, Clone, Debug)]
pub struct RuleWithValue<T: 'static> {
    pub value: T,
    pub level: LogLevel,
}

impl<T> RuleWithValue<T> {
    pub fn new(value: T, level: LogLevel) -> (res: Self)
        ensures
            res.value == value,
            res.level == level,
    {
        Self { value, level }
    }

    /// The rule that a setting of a policy file describes.
    pub fn from_setting(setting: ValueSetting<T>) -> (res: Self)
        ensures
            match setting {
                ValueSetting::Value(v) => res.value == v && res.level == LogLevel::Error,
                ValueSetting::Tuple(v, l) => res.value == v && res.level == l,
                ValueSetting::Table(v, l) => res.value == v && res.level == l,
            },
    {
        match setting {
            ValueSetting::Value(v) => Self { value: v, level: LogLevel::Error },
            ValueSetting::Tuple(v, l) => Self { value: v, level: l },
            ValueSetting::Table(v, l) => Self { value: v, level: l },
        }
    }

    /// Returns `Err` if `self.level == Error`, otherwise logs the message and returns `Ok`.
    pub fn handle<M: Into<SanitizerMessage>, L: Log>(&self, logger: &L, message: M) -> (res: Result<(), M>)
        ensures
            self.level == LogLevel::Error ==> res == Err::<(), M>(message),
            self.level != LogLevel::Error ==> res is Ok,
    {
        self.level.handle(logger, message)
    }
}

} // verus!
