use cabinet::conditional::{evaluate_read, evaluate_write, strip_quotes, tag_matches, Preconditions, Validators};

fn tagged(tag: &str, modified: u64) -> Validators {
    Validators { etag: Some(tag.to_string()), last_modified: Some(modified) }
}

#[test]
fn if_none_match_with_the_current_tag_is_not_modified() {
    let v = tagged("abc", 100);
    let pre = Preconditions { if_none_match: Some(vec!["\"abc\"".to_string()]), ..Default::default() };
    assert!(evaluate_read(&v, &pre));
    let pre = Preconditions { if_none_match: Some(vec!["\"xyz\"".to_string()]), ..Default::default() };
    assert!(!evaluate_read(&v, &pre));
}

#[test]
fn if_none_match_takes_precedence_over_if_modified_since() {
    let v = tagged("abc", 100);
    let pre = Preconditions {
        if_none_match: Some(vec!["\"xyz\"".to_string()]),
        if_modified_since: Some(200),
        ..Default::default()
    };
    assert!(!evaluate_read(&v, &pre));
}

#[test]
fn if_modified_since_compares_whole_seconds() {
    let v = tagged("abc", 100);
    let at = |t: u64| Preconditions { if_modified_since: Some(t), ..Default::default() };
    assert!(evaluate_read(&v, &at(100)));
    assert!(evaluate_read(&v, &at(101)));
    assert!(!evaluate_read(&v, &at(99)));
    assert!(!evaluate_read(&v, &Preconditions::default()));
}

#[test]
fn if_unmodified_since_before_the_last_change_fails() {
    let t: u64 = 1445394120;
    let v = tagged("abc", t);
    let at = |d: u64| Preconditions { if_unmodified_since: Some(d), ..Default::default() };
    assert!(evaluate_write(&v, &at(t - 1)));
    assert!(!evaluate_write(&v, &at(t)));
    assert!(!evaluate_write(&v, &at(t + 1)));
}

#[test]
fn if_match_needs_one_matching_tag() {
    let v = tagged("abc", 1);
    let with = |tags: Vec<&str>| Preconditions {
        if_match: Some(tags.into_iter().map(|t| t.to_string()).collect()),
        ..Default::default()
    };
    assert!(evaluate_write(&v, &with(vec!["\"xyz\""])));
    assert!(!evaluate_write(&v, &with(vec!["\"xyz\"", "\"abc\""])));
    assert!(!evaluate_write(&v, &Preconditions::default()));
}

#[test]
fn tags_apply_only_to_resources_that_have_one() {
    let v = Validators { etag: None, last_modified: Some(5) };
    let pre = Preconditions { if_match: Some(vec!["\"x\"".to_string()]), ..Default::default() };
    assert!(!evaluate_write(&v, &pre));
}

#[test]
fn quotes_are_stripped_at_both_ends() {
    assert_eq!(strip_quotes("\"abc\""), "abc");
    assert_eq!(strip_quotes("abc"), "abc");
    assert_eq!(strip_quotes("\"\"a\"b\"\""), "a\"b");
    assert_eq!(strip_quotes("\"\"\""), "");
    assert!(tag_matches("abc", &vec!["\"abc\"".to_string()]));
    assert!(!tag_matches("abc", &vec!["W/\"abc\"".to_string()]));
}
