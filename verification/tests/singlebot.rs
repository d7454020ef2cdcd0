use nicebot::{Permission, SingleBot};

#[test]
fn singlebot_from_str() {
    const INPUT: &str = r#"
            User-agent: *
            Allow: /abc
        "#;

    let bot = SingleBot::from(INPUT);

    assert_eq!(bot.check("/xyz"), Permission::Unspecified);
    assert_eq!(bot.check("/abc"), Permission::Allowed);
}

#[test]
fn singlebot_basic_allow_deny() {
    let bot = SingleBot::from("User-Agent: *\nAllow: /aaa\nDisallow: /bbb\n");

    assert_eq!(bot.check("/aaa"), Permission::Allowed);
    assert_eq!(bot.check("/bbb"), Permission::Denied);
    assert_eq!(bot.check("/ccc"), Permission::Unspecified);
}

#[test]
fn singlebot_prefix_extension() {
    let bot = SingleBot::from("User-Agent: *\nDisallow: /javascript\n");

    assert_eq!(bot.check("/java"), Permission::Unspecified);
    assert_eq!(bot.check("/javascript"), Permission::Denied);
    assert_eq!(bot.check("/javascript/x"), Permission::Denied);
    assert_eq!(bot.check("/javascriptandmore"), Permission::Denied);
}

#[test]
fn singlebot_specific_agent_overrides_star() {
    const INPUT: &str = "User-agent: specificbot\nDisallow: /x\nUser-agent: *\nAllow: /\n";

    let mut attuned = SingleBot::new(Some("specificbot".to_string()));
    attuned.add(INPUT);
    assert_eq!(attuned.check("/x"), Permission::Denied);
    assert_eq!(attuned.check("/y"), Permission::Unspecified);

    let unattuned = SingleBot::from(INPUT);
    // the star group's `Allow: /` covers every path by prefix, `/x` included
    assert_eq!(unattuned.check("/x"), Permission::Allowed);
    assert_eq!(unattuned.check("/y"), Permission::Allowed);
}

#[test]
fn singlebot_star_applies_without_specific_group() {
    const INPUT: &str = "User-agent: otherbot\nDisallow: /x\nUser-agent: *\nDisallow: /y\n";

    let mut bot = SingleBot::new(Some("specificbot".to_string()));
    bot.add(INPUT);

    assert_eq!(bot.check("/x"), Permission::Unspecified);
    assert_eq!(bot.check("/y"), Permission::Denied);
}

#[test]
fn singlebot_agent_substring_case_insensitive() {
    const INPUT: &str = "User-agent: The-Specificbot-2000\nDisallow: /x\n";

    let mut bot = SingleBot::new(Some("specificbot".to_string()));
    bot.add(INPUT);

    assert_eq!(bot.check("/x"), Permission::Denied);
}

#[test]
fn singlebot_end_anchor() {
    let bot = SingleBot::from("User-agent: *\nDisallow: /exact$\n");

    assert_eq!(bot.check("/exact"), Permission::Denied);
    assert_eq!(bot.check("/exactly"), Permission::Unspecified);
}

#[test]
fn singlebot_percent_decoding() {
    let bot = SingleBot::from("User-agent: *\nDisallow: /a%20b\n");

    assert_eq!(bot.check("/a b"), Permission::Denied);
    assert_eq!(bot.check("/a%20b"), Permission::Unspecified);
}

#[test]
fn singlebot_comments_and_unknown_keys() {
    const INPUT: &str = "# a file comment\nUser-agent: * # everyone\nSitemap: /map\nCrawl-delay: 10\nDisallow: /a # trailing comment\n";

    let bot = SingleBot::from(INPUT);

    assert_eq!(bot.check("/a"), Permission::Denied);
    assert_eq!(bot.check("/map"), Permission::Unspecified);
}

#[test]
fn singlebot_value_with_space_rejected() {
    let bot = SingleBot::from("User-agent: *\nDisallow: /a /b\n");

    assert_eq!(bot.check("/a"), Permission::Unspecified);
    assert_eq!(bot.check("/a /b"), Permission::Unspecified);
}

#[test]
fn singlebot_key_case_insensitive() {
    let bot = SingleBot::from("uSeR-AgEnT: *\nDiSaLLoW: /a\n");

    assert_eq!(bot.check("/a"), Permission::Denied);
}

#[test]
fn singlebot_add_is_additive_and_last_write_wins() {
    let mut bot = SingleBot::new(None);
    bot.add("User-agent: *\nDisallow: /a\n");
    bot.add("User-agent: *\nAllow: /a\nDisallow: /b\n");

    assert_eq!(bot.check("/a"), Permission::Allowed);
    assert_eq!(bot.check("/b"), Permission::Denied);
}

#[test]
fn singlebot_empty_input_unspecified() {
    let bot = SingleBot::from("");

    assert_eq!(bot.check(""), Permission::Unspecified);
    assert_eq!(bot.check("/anything"), Permission::Unspecified);
}

#[test]
fn singlebot_trim_preserves_answers() {
    let mut bot = SingleBot::from("User-agent: *\nAllow: /a\nDisallow: /b*z$\n");
    bot.trim();

    assert_eq!(bot.check("/a"), Permission::Allowed);
    assert_eq!(bot.check("/b-and-z"), Permission::Denied);
    assert_eq!(bot.check("/b-and-z-more"), Permission::Unspecified);
}

#[test]
fn singlebot_wildcard_rules() {
    let bot = SingleBot::from("User-agent: *\nDisallow: /a/*\nDisallow: /mail?hl=*\n");

    assert_eq!(bot.check("/a/secret"), Permission::Denied);
    assert_eq!(bot.check("/a/"), Permission::Denied);
    assert_eq!(bot.check("/mail?hl=en"), Permission::Denied);
    assert_eq!(bot.check("/mail"), Permission::Unspecified);
}

#[test]
fn singlebot_crlf_lines() {
    let bot = SingleBot::from("User-agent: *\r\nDisallow: /a\r\n");

    assert_eq!(bot.check("/a"), Permission::Denied);
}

#[test]
fn singlebot_parse_same_text_twice_behaves_equally() {
    const INPUT: &str = "User-agent: *\nAllow: /keep\nDisallow: /keep/out\nDisallow: /gone$\n";

    let a = SingleBot::from(INPUT);
    let b = SingleBot::from(INPUT);

    for q in ["/keep", "/keep/out", "/gone", "/gone2", "/other", ""] {
        assert_eq!(a.check(q), b.check(q));
    }
}
