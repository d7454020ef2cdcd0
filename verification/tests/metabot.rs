use nicebot::{CheckError, MetaBot, Permission};

#[test]
fn metabot_dispatches_by_host() {
    let mut meta = MetaBot::new(None);

    assert!(meta.try_add_robots("a.example", "User-agent: *\nDisallow: /\n"));
    assert!(meta.try_add_robots("b.example", "User-agent: *\nAllow: /\n"));

    assert!(matches!(
        meta.check("https://a.example/p"),
        Ok(Permission::Denied)
    ));
    assert!(matches!(
        meta.check("https://b.example/p"),
        Ok(Permission::Allowed)
    ));
    assert!(matches!(
        meta.check("https://c.example/p"),
        Ok(Permission::Unspecified)
    ));
    assert!(matches!(
        meta.check("not a url"),
        Err(CheckError::ParseError(_))
    ));
}

#[test]
fn metabot_missing_host() {
    let meta = MetaBot::new(None);

    assert!(matches!(
        meta.check("mailto:someone@example.com"),
        Err(CheckError::MissingHost)
    ));
}

#[test]
fn metabot_host_names_are_normalized() {
    let mut meta = MetaBot::new(None);

    assert!(meta.try_add_robots("A.Example", "User-agent: *\nDisallow: /\n"));

    assert!(matches!(
        meta.check("https://a.example/x"),
        Ok(Permission::Denied)
    ));
}

#[test]
fn metabot_rejects_bad_host() {
    let mut meta = MetaBot::new(None);

    assert!(!meta.try_add_robots("not a host", "User-agent: *\nDisallow: /\n"));
    assert!(matches!(
        meta.check("https://example.com/x"),
        Ok(Permission::Unspecified)
    ));
}

#[test]
fn metabot_check_host_path_directly() {
    let mut meta = MetaBot::new(None);

    meta.add_robots("a.example".to_string(), "User-agent: *\nDisallow: /p\n");

    assert_eq!(meta.check_host_path("a.example", "/p"), Permission::Denied);
    assert_eq!(
        meta.check_host_path("a.example", "/q"),
        Permission::Unspecified
    );
    assert_eq!(
        meta.check_host_path("b.example", "/p"),
        Permission::Unspecified
    );
}

#[test]
fn metabot_agent_key_reaches_engines() {
    let mut meta = MetaBot::new(Some("specificbot".to_string()));

    assert!(meta.try_add_robots(
        "a.example",
        "User-agent: specificbot\nDisallow: /x\nUser-agent: *\nAllow: /\n"
    ));

    assert!(matches!(
        meta.check("https://a.example/x"),
        Ok(Permission::Denied)
    ));
    assert!(matches!(
        meta.check("https://a.example/y"),
        Ok(Permission::Unspecified)
    ));
}

#[test]
fn metabot_add_robots_is_additive() {
    let mut meta = MetaBot::new(None);

    meta.add_robots("a.example".to_string(), "User-agent: *\nDisallow: /a\n");
    meta.add_robots("a.example".to_string(), "User-agent: *\nAllow: /a\n");

    assert!(matches!(
        meta.check("https://a.example/a"),
        Ok(Permission::Allowed)
    ));
}

#[test]
fn metabot_shrink_preserves_answers() {
    let mut meta = MetaBot::new(None);

    assert!(meta.try_add_robots("a.example", "User-agent: *\nDisallow: /\n"));
    meta.shrink();

    assert!(matches!(
        meta.check("https://a.example/p"),
        Ok(Permission::Denied)
    ));
}
