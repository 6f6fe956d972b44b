use org_capture::chain::{default_formatter, OrgModeFormatter};
use org_capture::entry::{ArgumentParser, OrgEntry};

#[test]
fn link_is_rendered_in_org_mode_shape() {
    let out = OrgModeFormatter::link("http://example.com", "Example Domain");
    assert_eq!(out, "[[http://example.com][Example Domain]]");
}

#[test]
fn default_formatter_uses_title_when_present() {
    let out = default_formatter(
        &"http://example.com".to_string(),
        &Some("Example Domain".to_string()),
    );
    assert_eq!(out, "[[http://example.com][Example Domain]]");
}

#[test]
fn default_formatter_falls_back_to_url() {
    let out = default_formatter(&"http://example.com".to_string(), &None);
    assert_eq!(out, "[[http://example.com][http://example.com]]");
}

#[test]
fn one_argument_gives_a_title_and_empty_body() {
    let args = vec!["prog".to_string(), "a title".to_string()];
    let entry = ArgumentParser::parse(&args).unwrap();
    assert_eq!(entry.title, "a title");
    assert_eq!(entry.body, "");
}

#[test]
fn two_arguments_give_title_and_body() {
    let args = vec!["prog".to_string(), "t".to_string(), "b".to_string()];
    let entry = ArgumentParser::parse(&args).unwrap();
    assert_eq!(entry.title, "t");
    assert_eq!(entry.body, "b");
}

#[test]
fn zero_or_three_arguments_are_rejected() {
    assert!(ArgumentParser::parse(&["prog".to_string()]).is_none());
    let too_many = vec![
        "prog".to_string(),
        "a".to_string(),
        "b".to_string(),
        "c".to_string(),
    ];
    assert!(ArgumentParser::parse(&too_many).is_none());
}

#[test]
fn apply_to_text_transforms_both_fields() {
    let entry = OrgEntry::new("left".to_string(), "right".to_string());
    let shouted = entry.apply_to_text(|s: &String| s.to_uppercase());
    assert_eq!(shouted.title, "LEFT");
    assert_eq!(shouted.body, "RIGHT");
}

#[test]
fn render_orgmode_produces_the_exact_template() {
    let entry = OrgEntry::new("Title here".to_string(), "body here".to_string());
    let out = entry.render_orgmode("2024-01-02 Tue 03:04");
    assert_eq!(
        out,
        "INBOX Title here\n:PROPERTIES:\n:CREATED:  [2024-01-02 Tue 03:04]\n:END:\nbody here"
    );
}

#[test]
fn to_orgmode_keeps_the_note_shape() {
    let entry = OrgEntry::new("T".to_string(), "B".to_string());
    let out = entry.to_orgmode();
    assert!(out.starts_with("INBOX T\n:PROPERTIES:\n:CREATED:  ["));
    assert!(out.ends_with("]\n:END:\nB"));
}
