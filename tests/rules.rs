use unifiedlog_sigma::condition_parser::ConditionCompiler;
use unifiedlog_sigma::detection::detect;
use unifiedlog_sigma::matchers::DefaultMatcher;
use unifiedlog_sigma::record::LogRecord;
use unifiedlog_sigma::rulenode::RuleNode;
use unifiedlog_sigma::yaml::YamlValue;

fn text(x: &str) -> YamlValue {
    YamlValue::Str(x.to_string())
}

fn map(entries: Vec<(&str, YamlValue)>) -> YamlValue {
    YamlValue::Hash(entries.into_iter().map(|(k, v)| (text(k), v)).collect())
}

fn record() -> LogRecord {
    LogRecord {
        time: 0,
        event_type: String::new(),
        log_type: String::new(),
        subsystem: String::new(),
        thread_id: 0,
        pid: 0,
        euid: 0,
        library: String::new(),
        library_uuid: String::new(),
        activity_id: 0,
        category: String::new(),
        process: String::new(),
        process_uuid: String::new(),
        message: String::new(),
        raw_message: String::new(),
        boot_uuid: String::new(),
        timezone_name: String::new(),
    }
}

fn with_process(p: &str) -> LogRecord {
    let mut r = record();
    r.process = p.to_string();
    r
}

fn rule_yaml(detection: YamlValue) -> YamlValue {
    map(vec![
        ("title", text("test rule")),
        ("level", text("high")),
        ("detection", detection),
    ])
}

fn compiled(detection: YamlValue) -> RuleNode {
    let mut rule = RuleNode::new("rules/test.yml".to_string(), rule_yaml(detection));
    let res = rule.init();
    assert!(res.is_ok(), "{:?}", res.err());
    rule
}

fn rejected(detection: YamlValue) -> (RuleNode, Vec<String>) {
    let mut rule = RuleNode::new("rules/bad.yml".to_string(), rule_yaml(detection));
    let errs = rule.init().unwrap_err();
    (rule, errs)
}

fn matcher(key: &str, value: YamlValue) -> DefaultMatcher {
    let mut m = DefaultMatcher::new();
    m.init(&vec![key.to_string()], &value).unwrap();
    m
}

fn hit(m: &DefaultMatcher, v: &str) -> bool {
    m.is_match(Some(&v.to_string()))
}

#[test]
fn contains_is_case_insensitive() {
    let rule = compiled(map(vec![
        ("sel", map(vec![("process|contains", text("SSH"))])),
        ("condition", text("sel")),
    ]));
    assert!(rule.select(&with_process("/usr/bin/ssh")));
    assert!(!rule.select(&with_process("/bin/bash")));
}

#[test]
fn endswith_on_non_ascii_value_uses_regex() {
    let rule = compiled(map(vec![
        ("sel", map(vec![("process|endswith", text("ssh"))])),
        ("condition", text("sel")),
    ]));
    assert!(rule.select(&with_process("プロセス/ssh")));
    assert!(!rule.select(&with_process("プロセス/bash")));
}

#[test]
fn condition_with_parentheses_and_not() {
    let rule = compiled(map(vec![
        ("a", map(vec![("pid", YamlValue::Integer(0))])),
        ("b", map(vec![("euid", YamlValue::Integer(0))])),
        ("c", map(vec![("process|endswith", text("sudo"))])),
        ("condition", text("(a or b) and not c")),
    ]));
    let mut first = with_process("/usr/bin/ssh");
    first.pid = 0;
    first.euid = 501;
    assert!(rule.select(&first));
    let mut second = with_process("/usr/bin/sudo");
    second.pid = 0;
    second.euid = 0;
    assert!(!rule.select(&second));
}

#[test]
fn all_of_expansion_requires_every_selection() {
    let sel = || map(vec![("subsystem", text("com.apple.foo"))]);
    let rule = compiled(map(vec![
        ("sel1", sel()),
        ("sel2", sel()),
        ("sel3", sel()),
        ("condition", text("all of sel*")),
    ]));
    let mut r = record();
    r.subsystem = "com.apple.foo".to_string();
    assert!(rule.select(&r));
    r.subsystem = "com.apple.bar".to_string();
    assert!(!rule.select(&r));
}

#[test]
fn one_of_expansion_needs_any_selection() {
    let rule = compiled(map(vec![
        ("sel_a", map(vec![("subsystem", text("com.apple.a"))])),
        ("sel_b", map(vec![("subsystem", text("com.apple.b"))])),
        ("condition", text("1 of sel_*")),
    ]));
    let mut r = record();
    r.subsystem = "com.apple.b".to_string();
    assert!(rule.select(&r));
    r.subsystem = "com.apple.c".to_string();
    assert!(!rule.select(&r));
}

#[test]
fn base64offset_contains_finds_each_offset() {
    let rule = compiled(map(vec![
        ("sel", map(vec![("message|base64offset|contains", text("cmd.exe"))])),
        ("condition", text("sel")),
    ]));
    for encoded in ["xxY21kLmV4ZQyy", "NtZC5leGU", "--jbWQuZXhl--"] {
        let mut r = record();
        r.message = encoded.to_string();
        assert!(rule.select(&r), "{encoded}");
    }
    let mut r = record();
    r.message = "plain cmd.exe".to_string();
    assert!(!rule.select(&r));
}

#[test]
fn cidr_matches_addresses_in_network() {
    let rule = compiled(map(vec![
        ("sel", map(vec![("raw_message|cidr", text("10.0.0.0/8"))])),
        ("condition", text("sel")),
    ]));
    let mut r = record();
    r.raw_message = "10.1.2.3".to_string();
    assert!(rule.select(&r));
    r.raw_message = "11.1.2.3".to_string();
    assert!(!rule.select(&r));
    r.raw_message = "not an ip".to_string();
    assert!(!rule.select(&r));
}

#[test]
fn invalid_cidr_is_rejected() {
    let (rule, errs) = rejected(map(vec![
        ("sel", map(vec![("raw_message|cidr", text("10.0.0.0/99"))])),
        ("condition", text("sel")),
    ]));
    assert!(!errs.is_empty());
    assert!(!rule.select(&record()));
}

#[test]
fn invalid_regex_is_rejected() {
    let (rule, errs) = rejected(map(vec![
        ("sel", map(vec![("process|re", text("(unclosed"))])),
        ("condition", text("sel")),
    ]));
    assert!(!errs.is_empty());
    assert!(!rule.select(&with_process("(unclosed")));
}

#[test]
fn dangling_and_is_rejected() {
    let (rule, errs) = rejected(map(vec![
        ("a", map(vec![("process", text("x"))])),
        ("condition", text("a and")),
    ]));
    assert!(!errs.is_empty());
    assert!(!rule.select(&with_process("x")));
}

#[test]
fn double_not_is_rejected() {
    let (rule, errs) = rejected(map(vec![
        ("a", map(vec![("process", text("x"))])),
        ("condition", text("not not a")),
    ]));
    assert!(!errs.is_empty());
    assert!(!rule.select(&with_process("y")));
}

#[test]
fn unmatched_parenthesis_is_rejected() {
    let (_, errs) = rejected(map(vec![
        ("a", map(vec![("process", text("x"))])),
        ("condition", text("(a")),
    ]));
    assert!(!errs.is_empty());
    let (_, errs) = rejected(map(vec![
        ("a", map(vec![("process", text("x"))])),
        ("condition", text("a)")),
    ]));
    assert!(!errs.is_empty());
}

#[test]
fn undefined_selection_is_rejected() {
    let (rule, errs) = rejected(map(vec![
        ("a", map(vec![("process", text("x"))])),
        ("condition", text("a or missing")),
    ]));
    assert!(errs.iter().any(|e| e.contains("missing is not defined.")));
    assert!(!rule.select(&with_process("x")));
}

#[test]
fn unusable_character_is_rejected() {
    let (_, errs) = rejected(map(vec![
        ("a", map(vec![("process", text("x"))])),
        ("condition", text("a & a")),
    ]));
    assert!(!errs.is_empty());
}

#[test]
fn missing_detection_and_selections_are_rejected() {
    let mut rule = RuleNode::new("r.yml".to_string(), map(vec![("title", text("t"))]));
    assert!(rule.init().is_err());
    let (_, errs) = rejected(map(vec![("condition", text("a"))]));
    assert!(errs.iter().any(|e| e == "There is no selection node under detection."));
}

#[test]
fn condition_is_needed_with_two_selections() {
    let (_, errs) = rejected(map(vec![
        ("a", map(vec![("process", text("x"))])),
        ("b", map(vec![("process", text("y"))])),
    ]));
    assert_eq!(errs, vec!["There is no condition node under detection.".to_string()]);
}

#[test]
fn single_selection_needs_no_condition() {
    let rule = compiled(map(vec![("only", map(vec![("process", text("launchd"))]))]));
    assert!(rule.select(&with_process("LAUNCHD")));
    assert!(!rule.select(&with_process("launchd2")));
}

#[test]
fn unknown_modifier_is_rejected() {
    let mut m = DefaultMatcher::new();
    let res = m.init(&vec!["process|sideways|StartsWith".to_string()], &text("x"));
    assert_eq!(
        res.unwrap_err(),
        vec![
            "An unknown pipe element was specified. key:".to_string(),
            "An unknown pipe element was specified. key:".to_string()
        ]
    );
}

#[test]
fn three_modifiers_are_rejected() {
    let mut m = DefaultMatcher::new();
    let res = m.init(&vec!["process|contains|all|re".to_string()], &text("x"));
    assert_eq!(res.unwrap_err(), vec!["Multiple pipe elements cannot be used. key:".to_string()]);
}

#[test]
fn null_value_matches_nothing() {
    let m = matcher("process", YamlValue::Null);
    assert!(!hit(&m, ""));
    assert!(!hit(&m, "anything"));
    assert!(!m.is_match(None));
}

#[test]
fn exact_agrees_with_anchored_regex() {
    let exact = matcher("process", text("SSHD"));
    let re = matcher("process|re", text("(?i)^SSHD$"));
    for v in ["sshd", "SSHD", "sShD", "sshd2", "xsshd", ""] {
        assert_eq!(hit(&exact, v), hit(&re, v), "{v}");
    }
    assert!(hit(&exact, "sshd"));
    assert!(!hit(&exact, "sshd2"));
}

#[test]
fn prefix_and_suffix_agree_with_wildcards() {
    let starts = matcher("process|startswith", text("abc"));
    let star_end = matcher("process", text("abc*"));
    let ends = matcher("process|endswith", text("xyz"));
    let star_begin = matcher("process", text("*xyz"));
    for v in ["ABCdef", "abc", "xabc", "ab", "", "wxyz", "XYZ", "xyzw"] {
        assert_eq!(hit(&starts, v), hit(&star_end, v), "{v}");
        assert_eq!(hit(&ends, v), hit(&star_begin, v), "{v}");
    }
    assert!(hit(&starts, "ABCdef"));
    assert!(!hit(&starts, "xabc"));
    assert!(hit(&ends, "wXyZ"));
}

#[test]
fn wildcard_crosses_newlines() {
    let m = matcher("message", text("foo*bar"));
    assert!(hit(&m, "foo\nbar"));
    assert!(hit(&m, "FOO\r\n\tBAR"));
    assert!(!hit(&m, "foo\nbaz"));
}

#[test]
fn question_mark_is_one_character() {
    let m = matcher("message", text("a?c"));
    assert!(hit(&m, "abc"));
    assert!(!hit(&m, "ac"));
    assert!(!hit(&m, "abbc"));
}

#[test]
fn regex_meta_characters_are_literal() {
    let m = matcher("message", text("a.c*x"));
    assert!(hit(&m, "a.cZZx"));
    assert!(!hit(&m, "abcZZx"));
}

#[test]
fn escaped_wildcards_are_literal() {
    let m = matcher("message", text(r"a\*b*"));
    assert!(hit(&m, "a*bcd"));
    assert!(!hit(&m, "axbcd"));
}

#[test]
fn integer_and_boolean_patterns_render_as_text() {
    let n = matcher("message", YamlValue::Integer(-42));
    assert!(hit(&n, "-42"));
    assert!(!hit(&n, "42"));
    let b = matcher("message", YamlValue::Boolean(true));
    assert!(hit(&b, "TRUE"));
    assert!(!hit(&b, "false"));
}

#[test]
fn list_values_are_alternatives() {
    let rule = compiled(map(vec![(
        "sel",
        map(vec![(
            "process",
            YamlValue::Array(vec![text("/bin/sh"), text("/bin/zsh")]),
        )]),
    )]));
    assert!(rule.select(&with_process("/bin/zsh")));
    assert!(!rule.select(&with_process("/bin/bash")));
}

#[test]
fn contains_all_list_needs_every_value() {
    let rule = compiled(map(vec![(
        "sel",
        map(vec![(
            "message|contains|all",
            YamlValue::Array(vec![text("alpha"), text("beta")]),
        )]),
    )]));
    let mut r = record();
    r.message = "ALPHA and beta".to_string();
    assert!(rule.select(&r));
    r.message = "alpha only".to_string();
    assert!(!rule.select(&r));
}

#[test]
fn double_negation_keeps_the_verdict() {
    let plain = compiled(map(vec![
        ("a", map(vec![("process", text("x"))])),
        ("condition", text("a")),
    ]));
    let twice = compiled(map(vec![
        ("a", map(vec![("process", text("x"))])),
        ("condition", text("not (not a)")),
    ]));
    for p in ["x", "X", "y", ""] {
        assert_eq!(plain.select(&with_process(p)), twice.select(&with_process(p)));
    }
}

#[test]
fn verdict_ignores_unread_fields() {
    let rule = compiled(map(vec![("sel", map(vec![("process|contains", text("ssh"))]))]));
    let mut a = with_process("/usr/bin/ssh");
    let mut b = with_process("/usr/bin/ssh");
    a.message = "one".to_string();
    b.message = "two".to_string();
    b.pid = 99;
    assert_eq!(rule.select(&a), rule.select(&b));
}

#[test]
fn pipe_in_condition_is_ignored() {
    let rule = compiled(map(vec![
        ("a", map(vec![("process", text("x"))])),
        ("condition", text("a | count() > 5")),
    ]));
    assert!(rule.select(&with_process("x")));
}

#[test]
fn and_binds_tighter_than_or() {
    let rule = compiled(map(vec![
        ("a", map(vec![("process", text("x"))])),
        ("b", map(vec![("message", text("m"))])),
        ("c", map(vec![("category", text("c"))])),
        ("condition", text("a or b and c")),
    ]));
    let mut r = with_process("x");
    assert!(rule.select(&r));
    r.process = "y".to_string();
    r.message = "m".to_string();
    assert!(!rule.select(&r));
    r.category = "c".to_string();
    assert!(rule.select(&r));
}

#[test]
fn convert_condition_expands_prefixes() {
    let keys = vec!["sel1".to_string(), "other".to_string(), "sel2".to_string()];
    assert_eq!(
        ConditionCompiler::convert_condition("all of sel*", &keys),
        "(sel1 and sel2)"
    );
    assert_eq!(
        ConditionCompiler::convert_condition("1 of sel* and other", &keys),
        "(sel1 or sel2) and other"
    );
    assert_eq!(ConditionCompiler::convert_condition("sel1", &keys), "sel1");
}

#[test]
fn detect_reports_matches_in_order() {
    let ssh = compiled(map(vec![("sel", map(vec![("process|contains", text("ssh"))]))]));
    let root = compiled(map(vec![("sel", map(vec![("euid", YamlValue::Integer(0))]))]));
    let mut first = with_process("/usr/bin/ssh");
    first.euid = 0;
    let mut second = with_process("/bin/ls");
    second.euid = 501;
    let mut third = with_process("/bin/ls");
    third.euid = 0;
    let rules = vec![ssh, root];
    let found = detect(&vec![first, second, third], &rules);
    assert_eq!(found.len(), 3);
    assert_eq!(found[0].logdata.process, "/usr/bin/ssh");
    assert_eq!(found[1].logdata.process, "/usr/bin/ssh");
    assert_eq!(found[2].logdata.process, "/bin/ls");
    assert_eq!(found[0].rulepath, "rules/test.yml");
    assert_eq!(found[0].ruletitle, "test rule");
    assert_eq!(found[0].level, "high");
}

#[test]
fn record_fields_read_by_name() {
    let mut r = record();
    r.pid = 4242;
    r.subsystem = "com.apple.x".to_string();
    assert_eq!(r.field("pid"), Some("4242".to_string()));
    assert_eq!(r.field("subsystem"), Some("com.apple.x".to_string()));
    assert_eq!(r.field("Subsystem"), None);
    assert_eq!(r.field("nope"), None);
}

#[test]
fn empty_key_list_searches_anywhere() {
    let mut m = DefaultMatcher::new();
    m.init(&Vec::new(), &text("ab*")).unwrap();
    assert!(m.is_match(Some(&"xxAByy".to_string())));
    assert!(!m.is_match(Some(&"zz".to_string())));
    assert!(!m.is_match(None));
}

fn condition_error(condition: &str) -> Vec<String> {
    let (rule, errs) = rejected(map(vec![
        ("a", map(vec![("pid", YamlValue::Integer(0))])),
        ("condition", text(condition)),
    ]));
    assert!(!rule.select(&record()));
    errs
}

fn parse_error(msg: &str) -> Vec<String> {
    vec![format!("A condition parse error has occurred. {msg}")]
}

#[test]
fn condition_errors_name_their_cause() {
    assert_eq!(condition_error("(a"), parse_error("')' was expected but not found."));
    assert_eq!(condition_error("a)"), parse_error("'(' was expected but not found."));
    assert_eq!(condition_error("a) and (a"), parse_error("')' was expected but not found."));
    assert_eq!(condition_error("a and"), parse_error("An illegal logical operator(and, or) was found."));
    assert_eq!(condition_error("or a"), parse_error("An illegal logical operator(and, or) was found."));
    assert_eq!(condition_error("a and or a"), parse_error("The use of a logical operator(and, or) was wrong."));
    assert_eq!(condition_error("a and not"), parse_error("An illegal not was found."));
    assert_eq!(condition_error("a and not not"), parse_error("Not is continuous."));
    assert_eq!(condition_error("b"), parse_error("b is not defined."));
    assert_eq!(condition_error("a or (a and b)"), parse_error("b is not defined."));
    assert_eq!(condition_error("a & a"), parse_error("An unusable character was found."));
}

#[test]
fn detection_errors_name_their_cause() {
    let mut rule = RuleNode::new("r.yml".to_string(), map(vec![("title", text("x"))]));
    assert_eq!(rule.init().unwrap_err(), vec!["Detection node was not found.".to_string()]);
    let (_, errs) = rejected(map(vec![("condition", text("sel"))]));
    assert_eq!(errs, vec!["There is no selection node under detection.".to_string()]);
}

#[test]
fn failed_init_clears_the_tree() {
    let mut rule = compiled(map(vec![("sel", map(vec![("process", text("x"))]))]));
    assert!(rule.select(&with_process("x")));
    rule.yaml = rule_yaml(map(vec![
        ("sel", map(vec![("process", text("x"))])),
        ("condition", text("sel and")),
    ]));
    assert!(rule.init().is_err());
    assert!(!rule.select(&with_process("x")));
}

#[test]
fn cidr_ignores_absent_field() {
    let m = matcher("raw_message|cidr", text("0.0.0.0/0"));
    assert!(!m.is_match(None));
    assert!(hit(&m, "1.2.3.4"));
}
