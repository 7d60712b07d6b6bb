use wsvc::cli::config::{get, get_config, parse_bool, parse_key, unset, Auth, Commit, Config, ConfigKey};
use wsvc::WsvcError;

fn commit(author: Option<&str>, auto: Option<bool>) -> Commit {
    Commit { author: author.map(|s| s.to_string()), auto_record: auto }
}

fn auth(account: Option<&str>, password: Option<&str>) -> Auth {
    Auth { account: account.map(|s| s.to_string()), password: password.map(|s| s.to_string()) }
}

#[test]
fn merge_prefers_the_sections_of_the_other() {
    let base = Config { commit: Some(commit(Some("base"), Some(true))), auth: Some(auth(Some("u"), None)) };
    let over = Config { commit: Some(commit(Some("over"), None)), auth: None };
    let merged = base.merge(over);
    let c = merged.commit.unwrap();
    assert_eq!(c.author.as_deref(), Some("over"));
    assert_eq!(c.auto_record, None);
    let a = merged.auth.unwrap();
    assert_eq!(a.account.as_deref(), Some("u"));
    assert_eq!(a.password, None);
}

#[test]
fn merge_with_empty_keeps_the_base() {
    let base = Config { commit: Some(commit(Some("base"), Some(false))), auth: None };
    let merged = base.merge(Config::default());
    assert_eq!(merged.commit.unwrap().author.as_deref(), Some("base"));
    assert!(merged.auth.is_none());
}

#[test]
fn get_config_lets_local_override_global() {
    let global = Config { commit: Some(commit(Some("g"), None)), auth: Some(auth(Some("ga"), None)) };
    let local = Config { commit: Some(commit(Some("l"), None)), auth: None };
    let both = get_config(Some(local.clone()), Some(global.clone())).unwrap();
    assert_eq!(both.commit.unwrap().author.as_deref(), Some("l"));
    assert_eq!(both.auth.unwrap().account.as_deref(), Some("ga"));
    let only_global = get_config(None, Some(global)).unwrap();
    assert_eq!(only_global.commit.unwrap().author.as_deref(), Some("g"));
    let only_local = get_config(Some(local), None).unwrap();
    assert_eq!(only_local.commit.unwrap().author.as_deref(), Some("l"));
    assert!(get_config(None, None).is_none());
}

#[test]
fn keys_are_read_exactly() {
    assert_eq!(parse_key("commit.author"), Some(ConfigKey::CommitAuthor));
    assert_eq!(parse_key("commit.auto_record"), Some(ConfigKey::CommitAutoRecord));
    assert_eq!(parse_key("auth.account"), Some(ConfigKey::AuthAccount));
    assert_eq!(parse_key("auth.password"), Some(ConfigKey::AuthPassword));
    assert_eq!(parse_key("commit.Author"), None);
    assert_eq!(parse_key(""), None);
    assert_eq!(parse_bool("true"), Some(true));
    assert_eq!(parse_bool("false"), Some(false));
    assert_eq!(parse_bool("True"), None);
}

#[test]
fn get_returns_each_entry() {
    let config = Config {
        commit: Some(commit(Some("me"), Some(true))),
        auth: Some(auth(Some("acc"), Some("pw"))),
    };
    assert_eq!(get(Some(config.clone()), "commit.author".to_string()).unwrap(), "me");
    assert_eq!(get(Some(config.clone()), "commit.auto_record".to_string()).unwrap(), "true");
    assert_eq!(get(Some(config.clone()), "auth.account".to_string()).unwrap(), "acc");
    assert_eq!(get(Some(config), "auth.password".to_string()).unwrap(), "pw");
    let off = Config { commit: Some(commit(None, Some(false))), auth: None };
    assert_eq!(get(Some(off), "commit.auto_record".to_string()).unwrap(), "false");
}

#[test]
fn get_reports_a_missing_entry_with_a_hint() {
    let config = Config { commit: Some(commit(None, None)), auth: None };
    match get(Some(config.clone()), "commit.author".to_string()) {
        Err(WsvcError::LackOfConfig(key, hint)) => {
            assert_eq!(key, "commit.author");
            assert_eq!(hint, "wsvc config set commit.author [--global]");
        }
        other => panic!("unexpected: {:?}", other),
    }
    match get(Some(config), "auth.password".to_string()) {
        Err(WsvcError::LackOfConfig(key, hint)) => {
            assert_eq!(key, "auth.password");
            assert_eq!(hint, "wsvc config set auth.password [--global]");
        }
        other => panic!("unexpected: {:?}", other),
    }
}

#[test]
fn get_without_any_configuration_hints_at_the_author() {
    match get(None, "auth.account".to_string()) {
        Err(WsvcError::LackOfConfig(key, hint)) => {
            assert_eq!(key, "auth.account");
            assert_eq!(hint, "wsvc config set commit.author [--global]");
        }
        other => panic!("unexpected: {:?}", other),
    }
}

#[test]
fn get_refuses_an_unknown_key() {
    match get(Some(Config::default()), "nope".to_string()) {
        Err(WsvcError::BadUsage(message)) => assert_eq!(message, "unknown config key: nope"),
        other => panic!("unexpected: {:?}", other),
    }
}

#[test]
fn set_creates_the_section_and_keeps_the_rest() {
    let config = wsvc::cli::config::set(None, "commit.author".to_string(), "me".to_string()).unwrap();
    assert_eq!(config.commit.as_ref().unwrap().author.as_deref(), Some("me"));
    assert_eq!(config.commit.as_ref().unwrap().auto_record, None);
    assert!(config.auth.is_none());
    let config = wsvc::cli::config::set(Some(config), "commit.auto_record".to_string(), "true".to_string()).unwrap();
    assert_eq!(config.commit.as_ref().unwrap().author.as_deref(), Some("me"));
    assert_eq!(config.commit.as_ref().unwrap().auto_record, Some(true));
    let config = wsvc::cli::config::set(Some(config), "auth.account".to_string(), "acc".to_string()).unwrap();
    let config = wsvc::cli::config::set(Some(config), "auth.password".to_string(), "pw".to_string()).unwrap();
    assert_eq!(config.auth.as_ref().unwrap().account.as_deref(), Some("acc"));
    assert_eq!(config.auth.as_ref().unwrap().password.as_deref(), Some("pw"));
    assert_eq!(config.commit.as_ref().unwrap().auto_record, Some(true));
}

#[test]
fn set_refuses_an_unknown_key_and_a_bad_boolean() {
    match wsvc::cli::config::set(None, "x.y".to_string(), "v".to_string()) {
        Err(WsvcError::BadUsage(message)) => assert_eq!(message, "unknown config key: x.y"),
        other => panic!("unexpected: {:?}", other),
    }
    match wsvc::cli::config::set(None, "commit.auto_record".to_string(), "yes".to_string()) {
        Err(WsvcError::BadUsage(message)) => assert_eq!(message, "not a boolean: yes"),
        other => panic!("unexpected: {:?}", other),
    }
}

#[test]
fn unset_removes_text_entries_only() {
    let config = Config {
        commit: Some(commit(Some("me"), Some(true))),
        auth: Some(auth(Some("acc"), Some("pw"))),
    };
    let config = unset(Some(config), "commit.author".to_string()).unwrap();
    assert_eq!(config.commit.as_ref().unwrap().author, None);
    assert_eq!(config.commit.as_ref().unwrap().auto_record, Some(true));
    let config = unset(Some(config), "auth.password".to_string()).unwrap();
    assert_eq!(config.auth.as_ref().unwrap().account.as_deref(), Some("acc"));
    assert_eq!(config.auth.as_ref().unwrap().password, None);
    let config = unset(Some(config), "auth.account".to_string()).unwrap();
    assert_eq!(config.auth.as_ref().unwrap().account, None);
    match unset(Some(config), "commit.auto_record".to_string()) {
        Err(WsvcError::BadUsage(message)) => {
            assert_eq!(message, "unknown config key: commit.auto_record")
        }
        other => panic!("unexpected: {:?}", other),
    }
    let created = unset(None, "auth.account".to_string()).unwrap();
    assert!(created.auth.is_some());
    assert!(created.commit.is_none());
}
