use perch::settings::{
    changes, channel_key, ChannelEntry, ChannelPrefs, Credentials, OAuthTokens, QualityPreference,
    Settings,
};
use perch::twitch::{persist, Session};

fn a_sign_in() -> OAuthTokens {
    OAuthTokens {
        access_token: "access".into(),
        refresh_token: "refresh".into(),
        expires_at: 4_102_444_800,
        user_id: "1234".into(),
        login: "someone".into(),
    }
}

#[test]
fn missing_file_yields_defaults() {
    let settings = Settings::default();
    assert_eq!(settings.volume, 10);
    assert_eq!(settings.quality, QualityPreference::Auto);
    assert_eq!(settings.chat_history, 100);
    assert!(settings.channel_prefs.is_empty());
    assert_eq!(
        settings.credentials,
        Credentials { client_id: None, auth_token: None, oauth: None }
    );
}

#[test]
fn saving_preferences_keeps_a_sign_in_written_since_launch() {
    // What the UI read at launch.
    let at_launch = Settings::default();

    // The worker signs in and persists, while the UI holds its snapshot.
    let signed_in = Settings::save_sign_in(at_launch.clone(), Some(a_sign_in()));

    // The UI saves a preference from its now-stale copy.
    let mut ui = at_launch.clone();
    ui.volume = 42;
    let stored = ui.save_preferences(signed_in);

    assert_eq!(stored.volume, 42, "the preference did not take");
    assert!(
        stored.credentials.oauth.is_some(),
        "saving a preference erased the sign-in"
    );
}

#[test]
fn forgetting_a_sign_in_drops_the_tokens() {
    let mut settings = Settings::default();
    settings.credentials.oauth = Some(a_sign_in());
    settings.credentials.client_id = Some("a-different-app".into());

    let stored = settings.save_forgetting_sign_in();
    assert!(stored.credentials.oauth.is_none());
    assert_eq!(
        stored.credentials.client_id.as_deref(),
        Some("a-different-app")
    );
}

#[test]
fn a_channel_with_no_level_of_its_own_uses_the_default() {
    let settings = Settings::default();
    assert_eq!(settings.volume_for("forsen"), settings.volume);
}

#[test]
fn a_remembered_channel_keeps_its_own_level() {
    let mut settings = Settings::default();
    assert!(settings.set_volume_for("forsen", 42));
    assert_eq!(settings.volume_for("forsen"), 42);
    // Setting the same value again is not a reason to rewrite the file.
    assert!(!settings.set_volume_for("forsen", 42));
}

#[test]
fn channel_keys_ignore_case_and_a_leading_hash() {
    let mut settings = Settings::default();
    settings.set_volume_for("Forsen", 42);
    assert_eq!(settings.volume_for("forsen"), 42);
    assert_eq!(settings.volume_for("#FORSEN"), 42);
    assert_eq!(settings.channel_prefs.len(), 1);
    assert_eq!(channel_key("##Forsen"), channel_key("forsen"));
}

#[test]
fn muting_is_remembered_but_never_becomes_the_default() {
    let mut settings = Settings::default();
    settings.set_volume_for("forsen", 60);
    settings.set_volume_for("forsen", 0);

    assert_eq!(settings.volume_for("forsen"), 0, "the mute was forgotten");
    assert_eq!(settings.volume, 60, "muting one channel muted the default");
    assert_eq!(
        settings.volume_for("never-opened"),
        60,
        "a new channel would have opened silent"
    );
}

#[test]
fn an_impossible_level_is_clamped_on_the_way_out() {
    let mut settings = Settings::default();
    settings.channel_prefs = vec![ChannelEntry {
        key: "forsen".into(),
        prefs: ChannelPrefs { volume: Some(250) },
    }];
    assert_eq!(settings.volume_for("forsen"), 100);
}

#[test]
fn saving_preferences_keeps_channel_levels() {
    let at_launch = Settings::default();
    let signed_in = Settings::save_sign_in(at_launch.clone(), Some(a_sign_in()));

    let mut ui = at_launch.clone();
    ui.set_volume_for("forsen", 42);
    let stored = ui.save_preferences(signed_in);
    assert_eq!(stored.volume_for("forsen"), 42);
    assert!(stored.credentials.oauth.is_some());
}

#[test]
fn saves_of_both_kinds_do_not_undo_each_other() {
    let mut preferences = Settings::default();
    preferences.volume = 33;
    let one = Settings::save_sign_in(
        preferences.clone().save_preferences(Settings::default()),
        Some(a_sign_in()),
    );
    let other = preferences
        .save_preferences(Settings::save_sign_in(Settings::default(), Some(a_sign_in())));
    assert_eq!(one, other);
}

#[test]
fn what_a_save_changed_is_told() {
    let before = Settings::default();
    let mut after = before.clone();
    after.volume = 90;
    let none = changes(&before, &after);
    assert!(!none.client_id && !none.stream);
    after.quality = QualityPreference::Fixed("720p60".into());
    assert!(changes(&before, &after).stream);
    after = before.clone();
    after.credentials.auth_token = Some("cookie".into());
    assert!(changes(&before, &after).stream);
    after = before.clone();
    after.credentials.client_id = Some("app".into());
    assert!(changes(&before, &after).client_id);
}

fn a_session(login: &str) -> Session {
    Session {
        access_token: format!("access-{login}"),
        refresh_token: format!("refresh-{login}"),
        expires_at: 9_999_999_999,
        user_id: "1".into(),
        login: login.into(),
    }
}

#[test]
fn a_stopped_worker_does_not_write_the_tokens_it_was_holding() {
    assert!(
        persist(&a_session("ghost"), true).is_none(),
        "a stopped worker wrote credentials anyway"
    );
}

#[test]
fn a_running_worker_still_writes_its_tokens() {
    let oauth = persist(&a_session("real"), false).expect("tokens were not saved");
    assert_eq!(oauth.login, "real");
    assert_eq!(oauth.refresh_token, "refresh-real");
    let stored = Settings::save_sign_in(Settings::default(), Some(oauth));
    assert_eq!(stored.credentials.oauth.unwrap().access_token, "access-real");
}
