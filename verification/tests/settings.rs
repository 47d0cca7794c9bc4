use sirji::settings::Settings;

#[test]
fn a_missing_file_is_a_valid_default() {
    let mut settings = Settings::default();
    settings.apply_env(None, None, None);
    assert!(settings.relay.is_empty());
    assert!(settings.extra_ca.is_none());
}

#[test]
fn the_environment_overrides_the_file() {
    let mut settings = Settings {
        relay: vec!["https://file.example".into()],
        relay_token: Some("old".into()),
        extra_ca: None,
    };
    settings.apply_env(
        Some(" https://a.example , ,https://b.example,".into()),
        Some("".into()),
        Some("/etc/sirji/relay.crt".into()),
    );
    assert_eq!(settings.relay, vec!["https://a.example".to_string(), "https://b.example".to_string()]);
    assert_eq!(settings.relay_token, Some("old".to_string()), "an empty token is ignored");
    assert_eq!(settings.extra_ca, Some("/etc/sirji/relay.crt".to_string()));

    settings.apply_env(Some("".into()), Some("secret".into()), None);
    assert!(settings.relay.is_empty(), "set but empty means no relays");
    assert_eq!(settings.relay_token, Some("secret".to_string()));
    assert_eq!(settings.extra_ca, Some("/etc/sirji/relay.crt".to_string()));
}

#[test]
fn an_empty_relay_variable_still_counts_as_configured() {
    let settings = Settings::default();
    assert!(!settings.relays_configured(false));
    assert!(settings.relays_configured(true));
    let settings = Settings { relay: vec!["https://a.example".into()], relay_token: None, extra_ca: None };
    assert!(settings.relays_configured(false));
}

#[test]
fn the_first_activation_wins() {
    let mut slot: Option<Settings> = None;
    Settings { relay: vec!["https://first".into()], relay_token: None, extra_ca: None }.activate(&mut slot);
    Settings { relay: vec!["https://second".into()], relay_token: None, extra_ca: None }.activate(&mut slot);
    let active = Settings::active(&slot, Some("https://env".into()), None, None);
    assert_eq!(active.relay, vec!["https://first".to_string()]);

    let fallback = Settings::active(&None, Some("https://env".into()), Some("t".into()), None);
    assert_eq!(fallback.relay, vec!["https://env".to_string()]);
    assert_eq!(fallback.relay_token, Some("t".to_string()));
}

#[test]
fn the_settings_file_lives_in_the_home() {
    assert_eq!(Settings::path_in("/home/a/.sirji"), "/home/a/.sirji/config.toml");
}
