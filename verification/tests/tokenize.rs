use nicebot::text::{chars_of, contains_chars, eq_str, to_lower, trimmed};
use nicebot::tokenize::{capture_str, tokenize_line, Directive};

fn chars(s: &str) -> Vec<char> {
    chars_of(s)
}

#[test]
fn tokenize_captures_in_order() {
    let caps = capture_str("User-Agent: *\n# note\nDisallow: /a\nSitemap: /s\nAllow: /b\n");

    assert_eq!(caps.len(), 3);
    assert_eq!(caps[0].0, Directive::UserAgent);
    assert!(eq_str(&caps[0].1, "*"));
    assert_eq!(caps[1].0, Directive::Disallow);
    assert!(eq_str(&caps[1].1, "/a"));
    assert_eq!(caps[2].0, Directive::Allow);
    assert!(eq_str(&caps[2].1, "/b"));
}

#[test]
fn tokenize_line_rules() {
    // comments are stripped before the split
    assert!(tokenize_line(&chars("allow: /a # comment")).is_some());
    // no colon, no directive
    assert!(tokenize_line(&chars("allow /a")).is_none());
    // unknown keys are dropped
    assert!(tokenize_line(&chars("crawl-delay: 10")).is_none());
    // keys are matched case-insensitively, values keep their case
    let (d, v) = tokenize_line(&chars("ALLOW: /CaSe")).unwrap();
    assert_eq!(d, Directive::Allow);
    assert!(eq_str(&v, "/CaSe"));
    // whitespace inside a value rejects the line
    assert!(tokenize_line(&chars("allow: /a /b")).is_none());
    // whitespace around key and value is trimmed
    let (_, v) = tokenize_line(&chars("  allow  :   /a  ")).unwrap();
    assert!(eq_str(&v, "/a"));
}

#[test]
fn text_helpers() {
    assert!(eq_str(&to_lower(&chars("AbC-7")), "abc-7"));
    assert!(eq_str(trimmed(&chars("  x y\t")), "x y"));
    assert!(eq_str(trimmed(&chars(" \t ")), ""));
    assert!(contains_chars(&chars("googlebot-images"), &chars("bot")));
    assert!(!contains_chars(&chars("google"), &chars("bot")));
    assert!(contains_chars(&chars("abc"), &chars("")));
}
