use passlock::engine::open_vault;
use passlock::models::SALT_LEN;
use passlock::screens::{InputField, MessageType, Screen};
use passlock::session::App;

fn unlocked_app(password: &str) -> (App, Vec<u8>) {
    let mut app = App::new();
    app.input_buffer = password.to_string();
    app.input_buffer2 = password.to_string();
    let container = app.create_vault().expect("vault creation");
    (app, container)
}

fn add_one(app: &mut App, name: &str, user: &str, pass: &str, now: u64) -> Vec<u8> {
    app.n_entry_name = name.to_string();
    app.n_entry_user = user.to_string();
    app.n_entry_pass = pass.to_string();
    app.add_entry(now).expect("entry added")
}

#[test]
fn new_app_starts_at_vault_check() {
    let app = App::new();
    assert!(matches!(app.screen, Screen::VaultCheck));
    assert!(app.vault.is_none());
    assert_eq!(app.msg, "");
}

#[test]
fn check_vault_branches() {
    let mut app = App::new();
    app.check_vault(true);
    assert!(matches!(app.screen, Screen::UnlockVault));
    assert!(matches!(app.input_field, InputField::Password));

    let mut app2 = App::new();
    app2.check_vault(false);
    assert!(matches!(app2.screen, Screen::CreateVault));
    assert_eq!(app2.msg, "No vault found. Create one to get started!");
    assert!(matches!(app2.msg_type, MessageType::Info));
}

#[test]
fn create_vault_validates_length() {
    let mut app = App::new();
    app.input_buffer = "abc".to_string();
    app.input_buffer2 = "abc".to_string();
    assert!(app.create_vault().is_none());
    assert_eq!(app.msg, "Password too short (min 4 chars)");
    assert!(app.vault.is_none());
}

#[test]
fn create_vault_validates_match() {
    let mut app = App::new();
    app.input_buffer = "abcd".to_string();
    app.input_buffer2 = "abce".to_string();
    assert!(app.create_vault().is_none());
    assert_eq!(app.msg, "Passwords don't match!");
}

#[test]
fn create_vault_success() {
    let (app, container) = unlocked_app("master-pw");
    assert!(matches!(app.screen, Screen::MainMenu));
    assert_eq!(app.master_pwd, "master-pw");
    assert_eq!(app.input_buffer, "");
    assert_eq!(app.input_buffer2, "");
    assert_eq!(app.msg, "Vault created successfully!");
    let v = app.vault.as_ref().unwrap();
    assert!(v.e.is_empty());
    assert_eq!(v.s.len(), SALT_LEN);
    assert_eq!(&container[..SALT_LEN], v.s.as_slice());
    let opened = open_vault(&container, "master-pw").unwrap();
    assert!(opened.e.is_empty());
}

#[test]
fn unlock_vault_with_wrong_password() {
    let (_, container) = unlocked_app("right");
    let mut app = App::new();
    app.input_buffer = "wrong".to_string();
    app.unlock_vault(&container);
    assert_eq!(app.msg, "Wrong password!");
    assert!(app.vault.is_none());
}

#[test]
fn unlock_vault_success_loads_entries() {
    let (mut app, _) = unlocked_app("pw-here");
    let container = add_one(&mut app, "email", "a@b.com", "xyz", 100);

    let mut fresh = App::new();
    fresh.input_buffer = "pw-here".to_string();
    fresh.unlock_vault(&container);
    assert_eq!(fresh.msg, "Vault unlocked!");
    assert!(matches!(fresh.screen, Screen::MainMenu));
    assert_eq!(fresh.master_pwd, "pw-here");
    assert_eq!(fresh.entry_disp.len(), 1);
    assert_eq!(fresh.entry_disp[0].n, "email");
}

#[test]
fn example_scenario_correct_horse() {
    let (mut app, _) = unlocked_app("correct horse");
    let container = add_one(&mut app, "email", "a@b.com", "xyz", 1000);

    let reopened = open_vault(&container, "correct horse").unwrap();
    assert_eq!(reopened.e.len(), 1);
    assert_eq!(reopened.e[0].n, "email");
    assert_eq!(reopened.e[0].u, "a@b.com");
    assert_eq!(reopened.e[0].p, "xyz");

    match open_vault(&container, "wrong horse") {
        Err(passlock::errors::VaultError::AuthError) => {}
        Err(e) => panic!("expected AuthError, got {:?}", e),
        Ok(_) => panic!("expected AuthError, got a vault"),
    }
}

#[test]
fn add_entry_requires_fields() {
    let (mut app, _) = unlocked_app("pw-1234");
    app.n_entry_name = "site".to_string();
    assert!(app.add_entry(5).is_none());
    assert_eq!(app.msg, "Name, Username, and Password are required!");
}

#[test]
fn add_entry_fills_fields_and_clears_form() {
    let (mut app, _) = unlocked_app("pw-1234");
    app.n_entry_name = "site".to_string();
    app.n_entry_user = "me".to_string();
    app.n_entry_pass = "secret".to_string();
    app.n_entry_url = "".to_string();
    app.n_entry_notes = "remember".to_string();
    app.n_entry_tags = vec!["work".to_string()];
    let container = app.add_entry(777).expect("added");

    let v = app.vault.as_ref().unwrap();
    assert_eq!(v.e.len(), 1);
    let e = &v.e[0];
    assert!(!e.id.is_empty());
    assert_eq!(e.n, "site");
    assert_eq!(e.u, "me");
    assert_eq!(e.p, "secret");
    assert_eq!(e.url, None);
    assert_eq!(e.nt.as_deref(), Some("remember"));
    assert_eq!(e.t, 777);
    assert_eq!(e.last_modified, 777);
    assert_eq!(e.tags, vec!["work".to_string()]);
    assert!(e.history.is_empty());

    assert_eq!(app.n_entry_name, "");
    assert_eq!(app.n_entry_tags.len(), 0);
    assert_eq!(app.msg, "Password added successfully!");
    assert_eq!(app.entry_disp.len(), 1);

    let opened = open_vault(&container, "pw-1234").unwrap();
    assert_eq!(opened.e.len(), 1);
    assert_eq!(opened.e[0].p, "secret");
}

#[test]
fn edit_entry_updates_and_records_history() {
    let (mut app, _) = unlocked_app("pw-1234");
    add_one(&mut app, "site", "me", "first", 1);
    let id = app.vault.as_ref().unwrap().e[0].id.clone();

    app.load_efe(&id);
    assert!(matches!(app.screen, Screen::EditPassword));
    assert_eq!(app.n_entry_name, "site");
    assert_eq!(app.edit_eid, id);

    app.n_entry_pass = "second".to_string();
    let container = app.edit_entry(2).expect("edited");
    let e = &app.vault.as_ref().unwrap().e[0];
    assert_eq!(e.p, "second");
    assert_eq!(e.t, 1);
    assert_eq!(e.last_modified, 2);
    assert_eq!(e.history.len(), 1);
    assert_eq!(e.history[0].password, "first");
    assert_eq!(e.history[0].changed_at, 2);

    let opened = open_vault(&container, "pw-1234").unwrap();
    assert_eq!(opened.e[0].p, "second");
}

#[test]
fn edit_entry_history_is_bounded() {
    let (mut app, _) = unlocked_app("pw-1234");
    add_one(&mut app, "site", "me", "p0", 0);
    let id = app.vault.as_ref().unwrap().e[0].id.clone();
    for k in 1..=7u64 {
        app.load_efe(&id);
        app.n_entry_pass = format!("p{}", k);
        app.edit_entry(k).expect("edited");
    }
    let e = &app.vault.as_ref().unwrap().e[0];
    assert_eq!(e.p, "p7");
    assert_eq!(e.history.len(), 5);
    assert_eq!(e.history[0].password, "p2");
    assert_eq!(e.history[4].password, "p6");
}

#[test]
fn edit_entry_unchanged_password_keeps_history() {
    let (mut app, _) = unlocked_app("pw-1234");
    add_one(&mut app, "site", "me", "keep", 1);
    let id = app.vault.as_ref().unwrap().e[0].id.clone();
    app.load_efe(&id);
    app.n_entry_user = "renamed".to_string();
    app.edit_entry(9).expect("edited");
    let e = &app.vault.as_ref().unwrap().e[0];
    assert_eq!(e.u, "renamed");
    assert!(e.history.is_empty());
}

#[test]
fn delete_entry_bounds_and_removal() {
    let (mut app, _) = unlocked_app("pw-1234");
    add_one(&mut app, "first", "u", "p", 1);
    add_one(&mut app, "second", "u", "p", 2);

    assert!(app.delete_entry(5).is_none());
    assert_eq!(app.msg, "Invalid entry number!");
    assert_eq!(app.vault.as_ref().unwrap().e.len(), 2);

    let container = app.delete_entry(0).expect("deleted");
    assert_eq!(app.msg, "Deleted 'first'");
    let v = app.vault.as_ref().unwrap();
    assert_eq!(v.e.len(), 1);
    assert_eq!(v.e[0].n, "second");
    let opened = open_vault(&container, "pw-1234").unwrap();
    assert_eq!(opened.e.len(), 1);
}

#[test]
fn search_entries_is_case_insensitive() {
    let (mut app, _) = unlocked_app("pw-1234");
    add_one(&mut app, "Email Account", "someone", "p", 1);
    add_one(&mut app, "Bank", "other", "p", 2);

    app.search_query = "email".to_string();
    app.search_entries();
    assert_eq!(app.entry_disp.len(), 1);
    assert_eq!(app.entry_disp[0].n, "Email Account");

    app.search_query = "SOMEONE".to_string();
    app.search_entries();
    assert_eq!(app.entry_disp.len(), 1);

    app.search_query = "nothing-here".to_string();
    app.search_entries();
    assert!(app.entry_disp.is_empty());

    app.search_query = "".to_string();
    app.search_entries();
    assert_eq!(app.entry_disp.len(), 2);
}

#[test]
fn search_entries_matches_tags_and_urls() {
    let (mut app, _) = unlocked_app("pw-1234");
    app.n_entry_name = "plain".to_string();
    app.n_entry_user = "u".to_string();
    app.n_entry_pass = "p".to_string();
    app.n_entry_url = "https://example.org/Login".to_string();
    app.n_entry_tags = vec!["Finance".to_string()];
    app.add_entry(1).unwrap();

    app.search_query = "finance".to_string();
    app.search_entries();
    assert_eq!(app.entry_disp.len(), 1);

    app.search_query = "login".to_string();
    app.search_entries();
    assert_eq!(app.entry_disp.len(), 1);
}

#[test]
fn filter_by_tag() {
    let (mut app, _) = unlocked_app("pw-1234");
    app.n_entry_name = "a".to_string();
    app.n_entry_user = "u".to_string();
    app.n_entry_pass = "p".to_string();
    app.n_entry_tags = vec!["work".to_string()];
    app.add_entry(1).unwrap();
    app.n_entry_name = "b".to_string();
    app.n_entry_user = "u".to_string();
    app.n_entry_pass = "p".to_string();
    app.n_entry_tags = vec!["home".to_string()];
    app.add_entry(2).unwrap();

    app.filter_bt(Some("work".to_string()));
    assert_eq!(app.entry_disp.len(), 1);
    assert_eq!(app.entry_disp[0].n, "a");
    assert_eq!(app.active_tf.as_deref(), Some("work"));

    app.filter_bt(None);
    assert_eq!(app.entry_disp.len(), 2);
    assert!(app.active_tf.is_none());
}

#[test]
fn load_at_counts_and_orders_tags() {
    let (mut app, _) = unlocked_app("pw-1234");
    for (name, tags) in [
        ("one", vec!["shared", "rare"]),
        ("two", vec!["shared"]),
        ("three", vec!["shared"]),
    ] {
        app.n_entry_name = name.to_string();
        app.n_entry_user = "u".to_string();
        app.n_entry_pass = "p".to_string();
        app.n_entry_tags = tags.into_iter().map(|s| s.to_string()).collect();
        app.add_entry(1).unwrap();
    }
    app.load_at();
    assert_eq!(app.all_tags.len(), 2);
    assert_eq!(app.all_tags[0].0, "shared");
    assert_eq!(app.all_tags[0].1, 3);
    assert_eq!(app.all_tags[1].0, "rare");
    assert_eq!(app.all_tags[1].1, 1);
}

#[test]
fn add_tag_trims_lowercases_and_dedups() {
    let mut app = App::new();
    app.tag_input = "  Work \t".to_string();
    app.add_tag();
    assert_eq!(app.n_entry_tags, vec!["work".to_string()]);
    assert_eq!(app.tag_input, "");

    app.tag_input = "WORK".to_string();
    app.add_tag();
    assert_eq!(app.n_entry_tags.len(), 1);
    assert_eq!(app.tag_input, "WORK");

    app.tag_input = "   ".to_string();
    app.add_tag();
    assert_eq!(app.n_entry_tags.len(), 1);
}

#[test]
fn remove_tag_in_and_out_of_range() {
    let mut app = App::new();
    app.n_entry_tags = vec!["a".to_string(), "b".to_string()];
    app.remove_tag(0);
    assert_eq!(app.n_entry_tags, vec!["b".to_string()]);
    app.remove_tag(7);
    assert_eq!(app.n_entry_tags, vec!["b".to_string()]);
}

#[test]
fn gen_pwd_lengths() {
    let mut app = App::new();
    app.gen_pwd();
    assert_eq!(app.gen_pwd.chars().count(), 16);

    app.input_buffer = "32".to_string();
    app.gen_pwd();
    assert_eq!(app.gen_pwd.chars().count(), 32);

    app.input_buffer = "2".to_string();
    app.gen_pwd();
    assert_eq!(app.gen_pwd.chars().count(), 4);

    app.input_buffer = "500".to_string();
    app.gen_pwd();
    assert_eq!(app.gen_pwd.chars().count(), 64);

    app.input_buffer = "junk".to_string();
    app.gen_pwd();
    assert_eq!(app.gen_pwd.chars().count(), 16);
}

#[test]
fn gen_pwd_uses_only_the_alphabet() {
    let mut app = App::new();
    app.input_buffer = "64".to_string();
    app.gen_pwd();
    for c in app.gen_pwd.chars() {
        assert!(
            c.is_ascii_alphanumeric() || "!@#$%^&*".contains(c),
            "unexpected character {:?}",
            c
        );
    }
}

#[test]
fn set_msg_records_message() {
    let mut app = App::new();
    app.set_msg("hello", MessageType::Success);
    assert_eq!(app.msg, "hello");
    assert!(matches!(app.msg_type, MessageType::Success));
}

#[test]
fn ca_form_clears_everything() {
    let mut app = App::new();
    app.n_entry_name = "x".to_string();
    app.n_entry_tags = vec!["t".to_string()];
    app.edit_eid = "id".to_string();
    app.add_fi = 3;
    app.ca_form();
    assert_eq!(app.n_entry_name, "");
    assert!(app.n_entry_tags.is_empty());
    assert_eq!(app.edit_eid, "");
    assert_eq!(app.add_fi, 0);
}

#[test]
fn get_ta_buckets() {
    let day = 86400u64;
    assert_eq!(App::get_ta(1000, 1000), "Today");
    assert_eq!(App::get_ta(0, day - 1), "Today");
    assert_eq!(App::get_ta(0, day), "1 day ago");
    assert_eq!(App::get_ta(0, 5 * day), "5 days ago");
    assert_eq!(App::get_ta(0, 29 * day), "29 days ago");
    assert_eq!(App::get_ta(0, 30 * day), "1 month ago");
    assert_eq!(App::get_ta(0, 90 * day), "3 months ago");
    assert_eq!(App::get_ta(0, 365 * day), "1 year ago");
    assert_eq!(App::get_ta(0, 3 * 365 * day), "3 years ago");
    // a timestamp in the future counts as today
    assert_eq!(App::get_ta(5000, 100), "Today");
}

#[test]
fn load_efe_unknown_id_is_ignored() {
    let (mut app, _) = unlocked_app("pw-1234");
    add_one(&mut app, "site", "me", "p", 1);
    app.load_efe("no-such-id");
    assert!(matches!(app.screen, Screen::MainMenu));
    assert_eq!(app.edit_eid, "");
}
