use rulebox::{default_true, CompileError, Flag, LabelRule, LabeledText, RegexRule, Rule, RuleBox};

fn pat(source: &str, flags: &[&str]) -> RegexRule {
    RegexRule {
        pattern: source.to_string(),
        flags: flags.iter().map(|f| f.to_string()).collect(),
        compiled: None,
    }
}

fn rule(and: Vec<RegexRule>, or: Vec<RegexRule>, not: Vec<RegexRule>) -> Rule {
    Rule { and_patterns: and, or_patterns: or, not_patterns: not }
}

fn label_rule(r: Rule, label: &str, active: bool) -> LabelRule {
    LabelRule {
        uuid: format!("id-{}", label),
        rule: r,
        label: label.to_string(),
        proto_text: String::new(),
        active,
    }
}

fn compiled_box(rules: Vec<LabelRule>) -> RuleBox {
    let mut b = RuleBox(rules);
    b.compile().expect("rules compile");
    b
}

fn email_rule(active: bool) -> LabelRule {
    label_rule(rule(vec![], vec![pat(r"\bemail\b", &["i"])], vec![]), "contains_email", active)
}

#[test]
fn case_insensitive_any_of_rule_fires() {
    let b = compiled_box(vec![email_rule(true)]);
    let labels = b.assign_labels("Please send an EMAIL now");
    assert_eq!(labels, vec!["contains_email".to_string()]);
    let single = b.check("Please send an EMAIL now");
    assert_eq!(single.labels, vec!["contains_email".to_string()]);
    assert_eq!(single.content, "Please send an EMAIL now");
}

#[test]
fn inactive_rule_gives_no_label() {
    let b = compiled_box(vec![email_rule(false)]);
    assert!(b.assign_labels("Please send an EMAIL now").is_empty());
    let batch = b.assign_labels_vector(&["Please send an EMAIL now".to_string()]);
    assert_eq!(batch, vec![Vec::<String>::new()]);
}

#[test]
fn all_of_needs_every_pattern() {
    let b = compiled_box(vec![label_rule(
        rule(vec![pat("alpha", &[]), pat("beta", &[])], vec![], vec![]),
        "both",
        true,
    )]);
    assert!(b.assign_labels("alpha only").is_empty());
    assert_eq!(b.assign_labels("alpha and beta"), vec!["both".to_string()]);
}

#[test]
fn none_of_overrides_a_match() {
    let b = compiled_box(vec![label_rule(
        rule(vec![], vec![pat("yes", &[])], vec![pat("no", &[])]),
        "r",
        true,
    )]);
    assert!(b.assign_labels("yes and no").is_empty());
    assert_eq!(b.assign_labels("yes"), vec!["r".to_string()]);
}

#[test]
fn all_of_with_any_of_does_not_compile() {
    let mut b = RuleBox(vec![label_rule(
        rule(vec![pat("a", &[])], vec![pat("b", &[])], vec![]),
        "r",
        true,
    )]);
    assert_eq!(b.compile(), Err(CompileError::AndWithOr));
}

#[test]
fn only_none_of_does_not_compile() {
    let mut r = rule(vec![], vec![], vec![pat("x", &[])]);
    assert_eq!(r.compile(), Err(CompileError::OnlyNot));
}

#[test]
fn pattern_errors_come_before_shape_errors() {
    let mut r = rule(vec![pat("a", &[])], vec![pat("(", &[])], vec![]);
    assert!(matches!(r.compile(), Err(CompileError::InvalidPattern { .. })));
}

#[test]
fn unknown_flag_is_reported() {
    let mut p = pat("a", &["i", "x", "y"]);
    assert_eq!(p.compile(), Err(CompileError::UnknownFlag("x".to_string())));
    assert!(p.compiled.is_none());
}

#[test]
fn invalid_source_is_reported() {
    let mut p = pat("(unclosed", &[]);
    match p.compile() {
        Err(CompileError::InvalidPattern { pattern, message }) => {
            assert_eq!(pattern, "(unclosed");
            assert!(!message.is_empty());
        }
        other => panic!("unexpected {:?}", other),
    }
}

#[test]
fn first_failing_rule_stops_the_box() {
    let mut b = RuleBox(vec![
        email_rule(true),
        label_rule(rule(vec![], vec![pat("a", &["q"])], vec![]), "bad", true),
        label_rule(rule(vec![], vec![pat("(", &[])], vec![]), "worse", true),
    ]);
    assert_eq!(b.compile(), Err(CompileError::UnknownFlag("q".to_string())));
}

#[test]
fn batch_of_three_texts() {
    let b = compiled_box(vec![
        label_rule(rule(vec![], vec![pat("apple", &[])], vec![]), "A", true),
        label_rule(rule(vec![], vec![pat("banana", &[])], vec![]), "B", true),
    ]);
    let texts = vec!["an apple".to_string(), "a banana".to_string(), "apple pie".to_string()];
    let out = b.assign_labels_vector(&texts);
    assert_eq!(
        out,
        vec![vec!["A".to_string()], vec!["B".to_string()], vec!["A".to_string()]]
    );
}

#[test]
fn batch_keeps_first_found_order_without_duplicates() {
    let b = compiled_box(vec![
        label_rule(rule(vec![], vec![pat("x", &[])], vec![]), "second", true),
        label_rule(rule(vec![], vec![pat("y", &[])], vec![]), "first", true),
        label_rule(rule(vec![], vec![pat("z", &[])], vec![]), "second", true),
        label_rule(rule(vec![], vec![pat("x", &[])], vec![]), "off", false),
    ]);
    let texts = vec!["xyz".to_string(), "zy".to_string(), "".to_string()];
    let out = b.assign_labels_vector(&texts);
    assert_eq!(out[0], vec!["second".to_string(), "first".to_string()]);
    assert_eq!(out[1], vec!["first".to_string(), "second".to_string()]);
    assert!(out[2].is_empty());
    assert_eq!(b.check_many(&texts), out);
    assert_eq!(b.assign_labels("xyz"), out[0]);
}

#[test]
fn repeated_evaluation_gives_the_same_labels() {
    let b = compiled_box(vec![email_rule(true)]);
    let first = b.assign_labels("email me");
    let second = b.assign_labels("email me");
    assert_eq!(first, second);
    assert_eq!(first, vec!["contains_email".to_string()]);
}

#[test]
fn empty_rule_matches_every_text() {
    let r = rule(vec![], vec![], vec![]);
    assert!(r.check("anything"));
    assert!(r.check(""));
    let b = compiled_box(vec![label_rule(rule(vec![], vec![], vec![]), "all", true)]);
    assert_eq!(b.assign_labels(""), vec!["all".to_string()]);
}

#[test]
fn uncompiled_pattern_matches_nothing() {
    let p = pat(".*", &[]);
    assert!(!p.check("text"));
}

#[test]
fn case_flag_changes_matching() {
    let mut plain = pat("abc", &[]);
    plain.compile().unwrap();
    assert!(!plain.check("ABC"));
    let mut folded = pat("abc", &["i"]);
    folded.compile().unwrap();
    assert!(folded.check("xABCx"));
}

#[test]
fn multi_line_flag_changes_anchors() {
    let mut plain = pat("^b$", &[]);
    plain.compile().unwrap();
    assert!(!plain.check("a\nb\nc"));
    let mut lines = pat("^b$", &["m"]);
    lines.compile().unwrap();
    assert!(lines.check("a\nb\nc"));
}

#[test]
fn flags_parse() {
    assert_eq!(Flag::parse(&"i".to_string()), Some(Flag::CaseInsensitive));
    assert_eq!(Flag::parse(&"m".to_string()), Some(Flag::MultiLine));
    assert_eq!(Flag::parse(&"im".to_string()), None);
    assert_eq!(Flag::parse(&"".to_string()), None);
}

#[test]
fn label_rule_check_adds_label_once() {
    let mut r = email_rule(true);
    r.compile().unwrap();
    let mut text = LabeledText::new("an email".to_string());
    assert!(text.labels.is_empty());
    r.check(&mut text);
    r.check(&mut text);
    assert_eq!(text.labels, vec!["contains_email".to_string()]);
    let mut other = LabeledText::new("nothing".to_string());
    r.check(&mut other);
    assert!(other.labels.is_empty());
}

#[test]
fn definition_defaults() {
    assert!(default_true());
    let r = LabelRule::from_definition(rule(vec![], vec![], vec![]), "l".to_string(), None, None, None);
    assert_eq!(r.uuid.len(), 36);
    for (i, c) in r.uuid.chars().enumerate() {
        if i == 8 || i == 13 || i == 18 || i == 23 {
            assert_eq!(c, '-');
        } else {
            assert!(c.is_ascii_digit() || ('a'..='f').contains(&c));
        }
    }
    assert_eq!(r.uuid.chars().nth(14), Some('7'));
    assert!(matches!(r.uuid.chars().nth(19), Some('8' | '9' | 'a' | 'b')));
    assert!(r.active);
    assert_eq!(r.proto_text, "");
    let given = LabelRule::from_definition(
        rule(vec![], vec![], vec![]),
        "l".to_string(),
        Some("u".to_string()),
        Some("p".to_string()),
        Some(false),
    );
    assert_eq!(given.uuid, "u");
    assert_eq!(given.proto_text, "p");
    assert!(!given.active);
}

#[test]
fn generated_identifiers_differ() {
    let a = LabelRule::from_definition(rule(vec![], vec![], vec![]), "l".to_string(), None, None, None);
    let b = LabelRule::from_definition(rule(vec![], vec![], vec![]), "l".to_string(), None, None, None);
    assert_ne!(a.uuid, b.uuid);
}

#[test]
fn from_rules_refuses_all_of_with_any_of() {
    let r = RuleBox::from_rules(vec![label_rule(
        rule(vec![pat("a", &[])], vec![pat("b", &[])], vec![]),
        "x",
        true,
    )]);
    assert!(matches!(r, Err(CompileError::AndWithOr)));
}

#[test]
fn from_rules_gives_a_compiled_box() {
    let b = RuleBox::from_rules(vec![email_rule(true)]).expect("valid rules");
    assert_eq!(b.assign_labels("my email"), vec!["contains_email".to_string()]);
    assert!(b.0[0].rule.or_patterns[0].compiled.is_some());
}

#[test]
fn failed_compile_leaves_later_rules_alone() {
    let mut b = RuleBox(vec![
        email_rule(true),
        label_rule(rule(vec![], vec![pat("(", &[])], vec![]), "bad", true),
        email_rule(true),
    ]);
    assert!(matches!(b.compile(), Err(CompileError::InvalidPattern { .. })));
    assert!(b.0[0].rule.or_patterns[0].compiled.is_some());
    assert!(b.0[1].rule.or_patterns[0].compiled.is_none());
    assert!(b.0[2].rule.or_patterns[0].compiled.is_none());
}

#[test]
fn failed_rule_compile_leaves_later_patterns_alone() {
    let mut r = rule(vec![], vec![pat("a", &[]), pat("b", &["z"]), pat("c", &[])], vec![]);
    assert_eq!(r.compile(), Err(CompileError::UnknownFlag("z".to_string())));
    assert!(r.or_patterns[0].compiled.is_some());
    assert!(r.or_patterns[1].compiled.is_none());
    assert!(r.or_patterns[2].compiled.is_none());
}
