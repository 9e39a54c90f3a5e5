use web_sanitizer::log::LogLevel;
use web_sanitizer::rules::{JsReplace, ReplaceSetting, RuleWithReplace, RuleWithValue, ValueSetting};

#[test]
fn rules_replace_settings() {
    let r: RuleWithReplace<String> = RuleWithReplace::from_setting(ReplaceSetting::Level(LogLevel::Info));
    assert_eq!(r.level(), LogLevel::Info);
    assert_eq!(r.replace(), Some(&String::new()));

    let r: RuleWithReplace<String> = RuleWithReplace::from_setting(ReplaceSetting::Bool(true));
    assert_eq!(r.level(), LogLevel::Warn);
    assert!(r.replace().is_some());
    let r: RuleWithReplace<String> = RuleWithReplace::from_setting(ReplaceSetting::Bool(false));
    assert_eq!(r.level(), LogLevel::Warn);
    assert!(r.replace().is_none());

    let r = RuleWithReplace::from_setting(ReplaceSetting::Value("#".to_string()));
    assert_eq!(r.level(), LogLevel::Warn);
    assert_eq!(r.replace(), Some(&"#".to_string()));

    let r = RuleWithReplace::from_setting(ReplaceSetting::ValueLevel("x".to_string(), LogLevel::Error));
    assert_eq!(r.level(), LogLevel::Error);
    assert_eq!(r.replace(), Some(&"x".to_string()));

    let r: RuleWithReplace<JsReplace> =
        RuleWithReplace::from_setting(ReplaceSetting::BoolLevel(true, LogLevel::Debug));
    assert_eq!(r.level(), LogLevel::Debug);
    assert_eq!(
        r.replace().unwrap().as_str(),
        "/* Blocked by Web Sanitizer: dangerous keywords found */"
    );
    let r: RuleWithReplace<JsReplace> =
        RuleWithReplace::from_setting(ReplaceSetting::BoolLevel(false, LogLevel::Debug));
    assert!(r.replace().is_none());
}

#[test]
fn rules_value_settings() {
    let r = RuleWithValue::from_setting(ValueSetting::Value(5usize));
    assert_eq!(r.value, 5);
    assert_eq!(r.level, LogLevel::Error);
    let r = RuleWithValue::from_setting(ValueSetting::Tuple(7usize, LogLevel::Warn));
    assert_eq!((r.value, r.level), (7, LogLevel::Warn));
    let r = RuleWithValue::from_setting(ValueSetting::Table(9usize, LogLevel::Info));
    assert_eq!((r.value, r.level), (9, LogLevel::Info));
}
