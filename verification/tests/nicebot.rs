use nicebot::{NiceBot, Permission};

#[test]
fn nicebot_from_str() {
    const INPUT: &str = r#"
            User-agent: *
            Allow: /abc
        "#;

    let bot = NiceBot::from(INPUT);

    assert_eq!(bot.check("/xyz"), Permission::Unspecified);
    assert_eq!(bot.check("/abc"), Permission::Allowed);
}

#[test]
fn nicebot_own_group_overrides_star() {
    const INPUT: &str = "User-agent: NiceBot\nDisallow: /private\nUser-agent: *\nAllow: /\n";

    let bot = NiceBot::from(INPUT);

    assert_eq!(bot.check("/private"), Permission::Denied);
    assert_eq!(bot.check("/public"), Permission::Unspecified);
}

#[test]
fn nicebot_substring_agent_match() {
    const INPUT: &str = "User-agent: SuperNicebotDeluxe\nDisallow: /x\n";

    let bot = NiceBot::from(INPUT);

    assert_eq!(bot.check("/x"), Permission::Denied);
}

#[test]
fn nicebot_trim_preserves_answers() {
    let mut bot = NiceBot::from("User-agent: *\nDisallow: /a\n");
    bot.trim();

    assert_eq!(bot.check("/a"), Permission::Denied);
    assert_eq!(bot.check("/b"), Permission::Unspecified);
}
