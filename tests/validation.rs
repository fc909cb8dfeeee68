use panll::constraint::{ConfigError, Constraint, ConstraintKind, Predicate};
use panll::constraint::check_predicate;
use panll::text::{chars_of, contains_chars, glob_matches};
use panll::validator::{validate, validate_inference, ConstraintSet, Verdict};

fn strings(items: &[&str]) -> Vec<String> {
    items.iter().map(|s| s.to_string()).collect()
}

fn set_of(items: &[(ConstraintKind, &str)]) -> ConstraintSet {
    let mut set = ConstraintSet::new();
    for (kind, payload) in items {
        set.push(Constraint::new(*kind, payload).unwrap());
    }
    set
}

#[test]
fn inference_reports_first_listed_constraint() {
    let r = validate_inference("initiate reboot sequence", strings(&["reboot", "shutdown"]));
    assert_eq!(r, Err("Constraint violation detected: reboot".to_string()));
}

#[test]
fn inference_with_no_constraints_accepts() {
    assert_eq!(validate_inference("anything", Vec::new()), Ok(true));
}

#[test]
fn inference_reports_in_list_order_not_token_order() {
    let r = validate_inference("reboot then shutdown", strings(&["shutdown", "reboot"]));
    assert_eq!(r, Err("Constraint violation detected: shutdown".to_string()));
}

#[test]
fn inference_accepts_when_nothing_occurs() {
    assert_eq!(validate_inference("all quiet", strings(&["reboot", "Quiet"])), Ok(true));
}

#[test]
fn inference_on_empty_token() {
    assert_eq!(validate_inference("", strings(&["x"])), Ok(true));
    let r = validate_inference("", strings(&[""]));
    assert_eq!(r, Err("Constraint violation detected: ".to_string()));
}

#[test]
fn inference_on_non_ascii_text() {
    let r = validate_inference("符号 token", strings(&["号 t"]));
    assert_eq!(r, Err("Constraint violation detected: 号 t".to_string()));
}

#[test]
fn accepted_iff_no_constraint_matches() {
    let set = set_of(&[
        (ConstraintKind::ForbidSubstring, "rm -rf"),
        (ConstraintKind::ForbidPattern, "*password*"),
    ]);
    assert!(matches!(validate("list files", &set), Verdict::Accepted));
    assert!(matches!(validate("my password is", &set), Verdict::Rejected { index: 1, .. }));
}

#[test]
fn first_matching_constraint_is_reported() {
    let set = set_of(&[
        (ConstraintKind::ForbidSubstring, "alpha"),
        (ConstraintKind::ForbidSubstring, "beta"),
        (ConstraintKind::ForbidSubstring, "gamma"),
    ]);
    match validate("gamma beta", &set) {
        Verdict::Rejected { index, explanation } => {
            assert_eq!(index, 1);
            assert_eq!(explanation, "Constraint violation detected: beta");
        }
        Verdict::Accepted => panic!("expected a rejection"),
    }
}

#[test]
fn validating_twice_gives_the_same_verdict() {
    let set = set_of(&[
        (ConstraintKind::RequirePattern, "ok*"),
        (ConstraintKind::ForbidSubstring, "bad"),
    ]);
    for token in ["ok fine", "ok bad", "not ok"] {
        let a = validate(token, &set);
        let b = validate(token, &set);
        match (a, b) {
            (Verdict::Accepted, Verdict::Accepted) => {}
            (
                Verdict::Rejected { index: i, explanation: e },
                Verdict::Rejected { index: j, explanation: f },
            ) => {
                assert_eq!(i, j);
                assert_eq!(e, f);
            }
            _ => panic!("verdicts differ"),
        }
    }
}

#[test]
fn empty_set_accepts_everything() {
    let set = ConstraintSet::new();
    assert!(matches!(validate("", &set), Verdict::Accepted));
    assert!(matches!(validate("anything", &set), Verdict::Accepted));
}

#[test]
fn require_pattern_rejects_when_pattern_fails() {
    let set = set_of(&[(ConstraintKind::RequirePattern, "?*:?*")]);
    assert!(matches!(validate("key:value", &set), Verdict::Accepted));
    assert!(matches!(validate("novalue", &set), Verdict::Rejected { index: 0, .. }));
    assert!(matches!(validate(":x", &set), Verdict::Rejected { index: 0, .. }));
}

#[test]
fn custom_predicates() {
    let set = set_of(&[
        (ConstraintKind::CustomPredicate, "non_empty"),
        (ConstraintKind::CustomPredicate, "ascii"),
        (ConstraintKind::CustomPredicate, "single_line"),
    ]);
    assert!(matches!(validate("plain", &set), Verdict::Accepted));
    assert!(matches!(validate("", &set), Verdict::Rejected { index: 0, .. }));
    assert!(matches!(validate("café", &set), Verdict::Rejected { index: 1, .. }));
    assert!(matches!(validate("two\nlines", &set), Verdict::Rejected { index: 2, .. }));
}

#[test]
fn unknown_predicate_is_a_configuration_error() {
    let r = Constraint::new(ConstraintKind::CustomPredicate, "no_such_check");
    assert!(matches!(r, Err(ConfigError::UnknownPredicate)));
    assert!(Constraint::new(ConstraintKind::ForbidPattern, "no_such_check").is_ok());
}

#[test]
fn forbid_substrings_builds_in_order() {
    let set = ConstraintSet::forbid_substrings(&strings(&["a", "b"]));
    assert_eq!(set.len(), 2);
    assert_eq!(set.get(1).payload(), "b");
    assert_eq!(set.get(0).kind(), ConstraintKind::ForbidSubstring);
}

#[test]
fn substring_search_is_case_sensitive() {
    let t = chars_of("Reboot");
    assert!(!contains_chars(&t, &chars_of("reboot")));
    assert!(contains_chars(&t, &chars_of("boot")));
    assert!(contains_chars(&t, &chars_of("")));
    assert!(!contains_chars(&chars_of("ab"), &chars_of("abc")));
}

#[test]
fn wildcard_patterns() {
    let m = |p: &str, t: &str| glob_matches(&chars_of(p), &chars_of(t));
    assert!(m("*", ""));
    assert!(m("a*c", "abbbc"));
    assert!(m("a?c", "abc"));
    assert!(!m("a?c", "ac"));
    assert!(!m("abc", "abcd"));
    assert!(m("*x*y*", "0x1y2"));
    assert!(!m("", "a"));
}

#[test]
fn predicate_checks() {
    assert!(check_predicate(Predicate::Ascii, &chars_of("abc~")));
    assert!(!check_predicate(Predicate::Ascii, &chars_of("ä")));
    assert!(!check_predicate(Predicate::SingleLine, &chars_of("a\rb")));
    assert!(check_predicate(Predicate::NonEmpty, &chars_of("x")));
}

#[test]
fn many_wildcards_on_a_long_token() {
    let pattern = "*a".repeat(20) + "*b";
    let text = "a".repeat(3000);
    assert!(!glob_matches(&chars_of(&pattern), &chars_of(&text)));
    assert!(glob_matches(&chars_of(&pattern), &chars_of(&(text + "b"))));
}
