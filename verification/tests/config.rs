use rrbot::config::Config;

const TEST_CONFIG_JSON: &str = r#"{
    "client_id": "client_id",
    "client_secret": "client_secret",
    "username": "username",
    "password": "password",
    "hot_take": 50,
    "inbox_db_filename": "inbox.db",
    "posts_db_filename": "posts.db",
    "comments_db_filename": "comments.db",
    "sub": "sub",
    "monitor_only": true
}"#;

#[test]
fn test_config_parse() {
    let config = Config::new(TEST_CONFIG_JSON).unwrap();

    assert_eq!(config.client_id, "client_id");
    assert_eq!(config.client_secret, "client_secret");
    assert_eq!(config.username, "username");
    assert_eq!(config.password, "password");
    assert_eq!(config.hot_take, 50);
    assert_eq!(config.inbox_db_filename, "inbox.db");
    assert_eq!(config.posts_db_filename, "posts.db");
    assert_eq!(config.comments_db_filename, "comments.db");
    assert_eq!(config.sub, "sub");
    assert_eq!(config.monitor_only, true);
}

fn without(field: &str) -> String {
    TEST_CONFIG_JSON
        .lines()
        .filter(|line| !line.contains(&format!("\"{}\":", field)))
        .collect::<Vec<_>>()
        .join("\n")
        .replace("\"sub\": \"sub\",\n}", "\"sub\": \"sub\"\n}")
}

#[test]
fn config_reports_the_missing_setting() {
    for field in [
        "client_id",
        "client_secret",
        "username",
        "password",
        "hot_take",
        "inbox_db_filename",
        "posts_db_filename",
        "comments_db_filename",
        "sub",
        "monitor_only",
    ] {
        let error = Config::new(&without(field)).err().unwrap();
        assert_eq!(error.field, field);
    }
}

#[test]
fn config_reports_the_first_missing_setting() {
    let text = without("sub").replace("\"username\": \"username\",", "");
    assert_eq!(Config::new(&text).err().unwrap().field, "username");
}

#[test]
fn config_rejects_a_setting_of_the_wrong_kind() {
    let text = TEST_CONFIG_JSON.replace("\"hot_take\": 50", "\"hot_take\": \"50\"");
    assert_eq!(Config::new(&text).err().unwrap().field, "hot_take");
    let text = TEST_CONFIG_JSON.replace("\"monitor_only\": true", "\"monitor_only\": 1");
    assert_eq!(Config::new(&text).err().unwrap().field, "monitor_only");
    let text = TEST_CONFIG_JSON.replace("\"sub\": \"sub\"", "\"sub\": null");
    assert_eq!(Config::new(&text).err().unwrap().field, "sub");
}

#[test]
fn config_limits_hot_take_to_a_byte() {
    let text = TEST_CONFIG_JSON.replace("\"hot_take\": 50", "\"hot_take\": 255");
    assert_eq!(Config::new(&text).unwrap().hot_take, 255);
    let text = TEST_CONFIG_JSON.replace("\"hot_take\": 50", "\"hot_take\": 0");
    assert_eq!(Config::new(&text).unwrap().hot_take, 0);
    for bad in ["256", "-1", "1.5", "18446744073709551616"] {
        let text = TEST_CONFIG_JSON.replace("\"hot_take\": 50", &format!("\"hot_take\": {}", bad));
        assert_eq!(Config::new(&text).err().unwrap().field, "hot_take", "{}", bad);
    }
}

#[test]
fn config_rejects_what_is_no_json_object() {
    for text in ["", "not json", "[1, 2]", "\"client_id\"", "{\"client_id\": \"x\""] {
        assert_eq!(Config::new(text).err().unwrap().field, "client_id", "{:?}", text);
    }
}

#[test]
fn config_ignores_other_members() {
    let text = TEST_CONFIG_JSON.replace("\"sub\": \"sub\",", "\"sub\": \"sub\", \"extra\": [1, 2, 3],");
    let config = Config::new(&text).unwrap();
    assert_eq!(config.sub, "sub");
    assert!(config.monitor_only);
}

#[test]
fn config_reads_escapes_in_strings() {
    let text = TEST_CONFIG_JSON.replace("\"password\": \"password\"", "\"password\": \"p\\\"a\\\\s\\u0073\\n\"");
    assert_eq!(Config::new(&text).unwrap().password, "p\"a\\ss\n");
}

#[test]
fn config_from_members_reports_the_first_gap() {
    let error = Config::from_members(
        Some("a".to_string()),
        None,
        Some("c".to_string()),
        None,
        Some(7),
        None,
        None,
        None,
        None,
        None,
    )
    .err()
    .unwrap();
    assert_eq!(error.field, "client_secret");
}
