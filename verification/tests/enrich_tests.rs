use std::cell::Cell;

use org_capture::chain::default_formatter;
use org_capture::urls::Url;

type Formatter = Box<dyn Fn(&String, &Option<String>) -> Option<String>>;

fn no_formatters() -> Vec<Formatter> {
    Vec::new()
}

fn enrich(text: &str, resolved: Vec<(String, Option<String>)>) -> String {
    let formatters = no_formatters();
    Url::apply_all_formatters(text, &formatters, &default_formatter, &resolved)
}

#[test]
fn untitled_url_renders_as_its_own_display_text() {
    let text = "Check this out http://example.com";
    let urls = Url::collect(text);
    assert_eq!(urls, vec!["http://example.com".to_string()]);
    let resolved = vec![("http://example.com".to_string(), None)];
    let out = enrich(text, resolved);
    assert_eq!(out, "Check this out [[http://example.com][http://example.com]]");
}

#[test]
fn resolved_title_becomes_display_text() {
    let text = "Check this out http://example.com";
    let resolved = vec![(
        "http://example.com".to_string(),
        Some("Example Domain".to_string()),
    )];
    let out = enrich(text, resolved);
    assert_eq!(out, "Check this out [[http://example.com][Example Domain]]");
}

#[test]
fn other_schemes_are_left_alone() {
    let text = "write mailto:a@b.com or fetch ftp://host/file";
    let urls = Url::collect(text);
    assert!(urls.is_empty());
    let out = enrich(text, Vec::new());
    assert_eq!(out, text);
}

#[test]
fn text_without_urls_is_unchanged() {
    let text = "nothing to see here, move along";
    assert!(Url::collect(text).is_empty());
    assert_eq!(enrich(text, Vec::new()), text);
}

#[test]
fn repeated_url_is_collected_once_and_replaced_everywhere() {
    let text = "see http://a.io and http://a.io again";
    let urls = Url::collect(text);
    assert_eq!(urls, vec!["http://a.io".to_string()]);
    let resolved = vec![("http://a.io".to_string(), Some("A".to_string()))];
    let out = enrich(text, resolved);
    assert_eq!(out, "see [[http://a.io][A]] and [[http://a.io][A]] again");
    assert_eq!(out.matches("[[http://a.io][A]]").count(), 2);
}

#[test]
fn textually_different_urls_stay_distinct() {
    let text = "http://a.io/x http://a.io/x/ http://a.io/x";
    let urls = Url::collect(text);
    assert_eq!(
        urls,
        vec!["http://a.io/x".to_string(), "http://a.io/x/".to_string()]
    );
}

#[test]
fn https_is_collected_and_parenthesised_tokens_are_not() {
    let text = "see https://x.io and (http://y.io)";
    let urls = Url::collect(text);
    assert_eq!(urls, vec!["https://x.io".to_string()]);
}

#[test]
fn end_to_end_enrichment_without_a_title() {
    let formatters = no_formatters();
    let resolver = |_u: &String| -> Option<String> { None };
    let out = Url::enrich(
        "Check this out http://example.com",
        &formatters,
        &default_formatter,
        &resolver,
    );
    assert_eq!(out, "Check this out [[http://example.com][http://example.com]]");
}

#[test]
fn end_to_end_enrichment_with_a_title() {
    let formatters = no_formatters();
    let resolver = |_u: &String| -> Option<String> { Some("Example Domain".to_string()) };
    let out = Url::enrich(
        "Check this out http://example.com",
        &formatters,
        &default_formatter,
        &resolver,
    );
    assert_eq!(out, "Check this out [[http://example.com][Example Domain]]");
}

#[test]
fn end_to_end_enrichment_never_resolves_non_urls() {
    let calls = Cell::new(0usize);
    let formatters = no_formatters();
    let resolver = |_u: &String| -> Option<String> {
        calls.set(calls.get() + 1);
        None
    };
    let text = "write mailto:a@b.com or fetch ftp://host/file";
    let out = Url::enrich(text, &formatters, &default_formatter, &resolver);
    assert_eq!(out, text);
    assert_eq!(calls.get(), 0);
}

#[test]
fn end_to_end_enrichment_resolves_a_repeated_url_once() {
    let calls = Cell::new(0usize);
    let formatters = no_formatters();
    let resolver = |_u: &String| -> Option<String> {
        calls.set(calls.get() + 1);
        Some("A".to_string())
    };
    let out = Url::enrich(
        "see http://a.io and http://a.io again",
        &formatters,
        &default_formatter,
        &resolver,
    );
    assert_eq!(out, "see [[http://a.io][A]] and [[http://a.io][A]] again");
    assert_eq!(calls.get(), 1);
}

#[test]
fn first_matching_formatter_wins_and_later_ones_never_run() {
    let first_calls = Cell::new(0usize);
    let second_calls = Cell::new(0usize);
    let formatters: Vec<Box<dyn Fn(&String, &Option<String>) -> Option<String> + '_>> = vec![
        Box::new(|u: &String, _t: &Option<String>| {
            first_calls.set(first_calls.get() + 1);
            Some(format!("FIRST {}", u))
        }),
        Box::new(|u: &String, _t: &Option<String>| {
            second_calls.set(second_calls.get() + 1);
            Some(format!("SECOND {}", u))
        }),
    ];
    let resolved = vec![("http://a.io".to_string(), None)];
    let out = Url::apply_all_formatters("go http://a.io", &formatters, &default_formatter, &resolved);
    assert_eq!(out, "go FIRST http://a.io");
    assert_eq!(first_calls.get(), 1);
    assert_eq!(second_calls.get(), 0);
}

#[test]
fn default_applies_when_no_formatter_matches() {
    let formatters: Vec<Formatter> = vec![Box::new(|u: &String, _t: &Option<String>| {
        if u.contains("music.youtube.com") {
            Some(format!("MUSIC: {}", u))
        } else {
            None
        }
    })];
    let resolved = vec![("http://plain.example".to_string(), Some("Plain".to_string()))];
    let out = Url::apply_all_formatters(
        "at http://plain.example",
        &formatters,
        &default_formatter,
        &resolved,
    );
    assert_eq!(out, "at [[http://plain.example][Plain]]");
}

#[test]
fn matching_formatter_overrides_default() {
    let formatters: Vec<Formatter> = vec![Box::new(|u: &String, t: &Option<String>| {
        if u.contains("music.youtube.com") {
            Some(format!("MUSIC: {}, {}", u, t.clone().unwrap_or_default()))
        } else {
            None
        }
    })];
    let resolved = vec![(
        "https://music.youtube.com/w".to_string(),
        Some("Song".to_string()),
    )];
    let out = Url::apply_all_formatters(
        "hear https://music.youtube.com/w now",
        &formatters,
        &default_formatter,
        &resolved,
    );
    assert_eq!(out, "hear MUSIC: https://music.youtube.com/w, Song now");
}
