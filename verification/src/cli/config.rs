//! User configuration: two optional sections, each with optional entries.
//! A local configuration overrides the global one section by section.

use vstd::prelude::*;
use crate::text::{clone_text, join2, join3, str_eq};
use crate::{WsvcError, WsvcErrorView};

verus! {

/// The `commit` section.
#[derive(Debug, Default)]
pub struct Commit {
    pub author: Option<String>,
    pub auto_record: Option<bool>,
}

/// The `auth` section.
#[derive(Debug, Default)]
pub struct Auth {
    pub account: Option<String>,
    pub password: Option<String>,
}

/// A configuration file.
#[derive(Debug, Default)]
pub struct Config {
    pub commit: Option<Commit>,
    pub auth: Option<Auth>,
}

/// What a [`Commit`] section holds.
pub struct CommitView {
    pub author: Option<Seq<char>>,
    pub auto_record: Option<bool>,
}

/// What an [`Auth`] section holds.
pub struct AuthView {
    pub account: Option<Seq<char>>,
    pub password: Option<Seq<char>>,
}

/// What a [`Config`] holds.
pub struct ConfigView {
    pub commit: Option<CommitView>,
    pub auth: Option<AuthView>,
}

impl DeepView for Commit {
    type V = CommitView;

    open spec fn deep_view(&self) -> CommitView {
        CommitView { author: self.author.deep_view(), auto_record: self.auto_record }
    }
}

impl View for Commit {
    type V = CommitView;

    open spec fn view(&self) -> CommitView {
        self.deep_view()
    }
}

impl DeepView for Auth {
    type V = AuthView;

    open spec fn deep_view(&self) -> AuthView {
        AuthView { account: self.account.deep_view(), password: self.password.deep_view() }
    }
}

impl View for Auth {
    type V = AuthView;

    open spec fn view(&self) -> AuthView {
        self.deep_view()
    }
}

impl DeepView for Config {
    type V = ConfigView;

    open spec fn deep_view(&self) -> ConfigView {
        ConfigView { commit: self.commit.deep_view(), auth: self.auth.deep_view() }
    }
}

impl View for Config {
    type V = ConfigView;

    open spec fn view(&self) -> ConfigView {
        self.deep_view()
    }
}

impl Clone for Commit {
    fn clone(&self) -> (copy: Commit)
        ensures
            copy@ == self@,
    {
        Commit { author: clone_text(&self.author), auto_record: self.auto_record }
    }
}

impl Clone for Auth {
    fn clone(&self) -> (copy: Auth)
        ensures
            copy@ == self@,
    {
        Auth { account: clone_text(&self.account), password: clone_text(&self.password) }
    }
}

impl Clone for Config {
    fn clone(&self) -> (copy: Config)
        ensures
            copy@ == self@,
    {
        let commit = match &self.commit {
            Some(c) => Some(c.clone()),
            None => None,
        };
        let auth = match &self.auth {
            Some(a) => Some(a.clone()),
            None => None,
        };
        Config { commit, auth }
    }
}

/// The section that wins: the overriding one where it is present.
pub open spec fn prefer<T>(over: Option<T>, base: Option<T>) -> Option<T> {
    if over is Some {
        over
    } else {
        base
    }
}

/// `base` overridden by `over`, section by section.
pub open spec fn merged(base: ConfigView, over: ConfigView) -> ConfigView {
    ConfigView { commit: prefer(over.commit, base.commit), auth: prefer(over.auth, base.auth) }
}

impl Config {
    /// This configuration overridden by `other`: each section is taken from
    /// `other` where it has one, and from `self` otherwise.
    pub fn merge(&self, other: Config) -> (result: Config)
        ensures
            result@ == merged(self@, other@),
    {
        let commit = match other.commit {
            Some(c) => Some(c),
            None => match &self.commit {
                Some(c) => Some(c.clone()),
                None => None,
            },
        };
        let auth = match other.auth {
            Some(a) => Some(a),
            None => match &self.auth {
                Some(a) => Some(a.clone()),
                None => None,
            },
        };
        Config { commit, auth }
    }
}

/// The configuration in force, given the local and the global one as read.
pub open spec fn effective_config(local: Option<ConfigView>, global: Option<ConfigView>) -> Option<
    ConfigView,
> {
    match global {
        Some(g) => match local {
            Some(l) => Some(merged(g, l)),
            None => Some(g),
        },
        None => local,
    }
}

/// Combines the local and the global configuration: the local one overrides
/// the global one section by section, and either stands alone where the other
/// is missing.
pub fn get_config(local: Option<Config>, global: Option<Config>) -> (result: Option<Config>)
    ensures
        result.deep_view() == effective_config(local.deep_view(), global.deep_view()),
{
    match global {
        Some(g) => match local {
            Some(l) => Some(g.merge(l)),
            None => Some(g),
        },
        None => local,
    }
}

/// The four entries that a configuration can hold.
#[derive(Clone, Copy, Debug, PartialEq, Eq, Structural)]
pub enum ConfigKey {
    CommitAuthor,
    CommitAutoRecord,
    AuthAccount,
    AuthPassword,
}

/// The entry that a dotted key names, if any.
pub open spec fn key_of(text: Seq<char>) -> Option<ConfigKey> {
    if text == "commit.author"@ {
        Some(ConfigKey::CommitAuthor)
    } else if text == "commit.auto_record"@ {
        Some(ConfigKey::CommitAutoRecord)
    } else if text == "auth.account"@ {
        Some(ConfigKey::AuthAccount)
    } else if text == "auth.password"@ {
        Some(ConfigKey::AuthPassword)
    } else {
        None
    }
}

/// The dotted key of an entry.
pub open spec fn key_text(key: ConfigKey) -> Seq<char> {
    match key {
        ConfigKey::CommitAuthor => "commit.author"@,
        ConfigKey::CommitAutoRecord => "commit.auto_record"@,
        ConfigKey::AuthAccount => "auth.account"@,
        ConfigKey::AuthPassword => "auth.password"@,
    }
}

/// The hint shown when the entry `key` is missing.
pub open spec fn hint_text(key: Seq<char>) -> Seq<char> {
    "wsvc config set "@ + key + " [--global]"@
}

/// How a boolean entry is written.
pub open spec fn bool_text(value: bool) -> Seq<char> {
    if value {
        "true"@
    } else {
        "false"@
    }
}

/// The boolean that a text stands for, if any.
pub open spec fn bool_of(text: Seq<char>) -> Option<bool> {
    if text == "true"@ {
        Some(true)
    } else if text == "false"@ {
        Some(false)
    } else {
        None
    }
}

/// The text of the entry `key` in `config`, if it is set.
pub open spec fn entry(config: ConfigView, key: ConfigKey) -> Option<Seq<char>> {
    match key {
        ConfigKey::CommitAuthor => match config.commit {
            Some(c) => c.author,
            None => None,
        },
        ConfigKey::CommitAutoRecord => match config.commit {
            Some(c) => match c.auto_record {
                Some(b) => Some(bool_text(b)),
                None => None,
            },
            None => None,
        },
        ConfigKey::AuthAccount => match config.auth {
            Some(a) => a.account,
            None => None,
        },
        ConfigKey::AuthPassword => match config.auth {
            Some(a) => a.password,
            None => None,
        },
    }
}

/// The `commit` section of a configuration, empty where there is none.
pub open spec fn commit_or_empty(config: ConfigView) -> CommitView {
    match config.commit {
        Some(c) => c,
        None => CommitView { author: None, auto_record: None },
    }
}

/// The `auth` section of a configuration, empty where there is none.
pub open spec fn auth_or_empty(config: ConfigView) -> AuthView {
    match config.auth {
        Some(a) => a,
        None => AuthView { account: None, password: None },
    }
}

/// The configuration without sections.
pub open spec fn empty_config() -> ConfigView {
    ConfigView { commit: None, auth: None }
}

/// `config` with the text entry `key` replaced by `value`. The section of the
/// entry is created where it is missing. The boolean entry is left alone.
pub open spec fn with_text(config: ConfigView, key: ConfigKey, value: Option<Seq<char>>) -> ConfigView {
    match key {
        ConfigKey::CommitAuthor => ConfigView {
            commit: Some(CommitView { author: value, ..commit_or_empty(config) }),
            ..config
        },
        ConfigKey::CommitAutoRecord => config,
        ConfigKey::AuthAccount => ConfigView {
            auth: Some(AuthView { account: value, ..auth_or_empty(config) }),
            ..config
        },
        ConfigKey::AuthPassword => ConfigView {
            auth: Some(AuthView { password: value, ..auth_or_empty(config) }),
            ..config
        },
    }
}

/// `config` with the boolean entry set to `value`.
pub open spec fn with_auto_record(config: ConfigView, value: bool) -> ConfigView {
    ConfigView {
        commit: Some(CommitView { auto_record: Some(value), ..commit_or_empty(config) }),
        ..config
    }
}

/// What [`get`] answers.
pub open spec fn get_result(config: Option<ConfigView>, key: Seq<char>) -> Result<
    Seq<char>,
    WsvcErrorView,
> {
    match config {
        None => Err(WsvcErrorView::LackOfConfig(key, hint_text("commit.author"@))),
        Some(c) => match key_of(key) {
            None => Err(WsvcErrorView::BadUsage("unknown config key: "@ + key)),
            Some(k) => match entry(c, k) {
                Some(value) => Ok(value),
                None => Err(WsvcErrorView::LackOfConfig(key, hint_text(key))),
            },
        },
    }
}

/// What [`set`] answers.
pub open spec fn set_result(config: Option<ConfigView>, key: Seq<char>, value: Seq<char>) -> Result<
    ConfigView,
    WsvcErrorView,
> {
    let base = match config {
        Some(c) => c,
        None => empty_config(),
    };
    match key_of(key) {
        None => Err(WsvcErrorView::BadUsage("unknown config key: "@ + key)),
        Some(ConfigKey::CommitAutoRecord) => match bool_of(value) {
            Some(b) => Ok(with_auto_record(base, b)),
            None => Err(WsvcErrorView::BadUsage("not a boolean: "@ + value)),
        },
        Some(k) => Ok(with_text(base, k, Some(value))),
    }
}

/// What [`unset`] answers.
pub open spec fn unset_result(config: Option<ConfigView>, key: Seq<char>) -> Result<
    ConfigView,
    WsvcErrorView,
> {
    let base = match config {
        Some(c) => c,
        None => empty_config(),
    };
    match key_of(key) {
        None | Some(ConfigKey::CommitAutoRecord) => Err(
            WsvcErrorView::BadUsage("unknown config key: "@ + key),
        ),
        Some(k) => Ok(with_text(base, k, None)),
    }
}

/// Reads a dotted key.
pub fn parse_key(key: &str) -> (r: Option<ConfigKey>)
    ensures
        r == key_of(key@),
{
    if str_eq(key, "commit.author") {
        Some(ConfigKey::CommitAuthor)
    } else if str_eq(key, "commit.auto_record") {
        Some(ConfigKey::CommitAutoRecord)
    } else if str_eq(key, "auth.account") {
        Some(ConfigKey::AuthAccount)
    } else if str_eq(key, "auth.password") {
        Some(ConfigKey::AuthPassword)
    } else {
        None
    }
}

/// Reads a boolean entry: `true` or `false`, nothing else.
pub fn parse_bool(text: &str) -> (r: Option<bool>)
    ensures
        r == bool_of(text@),
{
    if str_eq(text, "true") {
        Some(true)
    } else if str_eq(text, "false") {
        Some(false)
    } else {
        None
    }
}

fn lack_of(key: &str) -> (e: WsvcError)
    ensures
        e@ == WsvcErrorView::LackOfConfig(key@, hint_text(key@)),
{
    WsvcError::LackOfConfig(key.to_owned(), join3("wsvc config set ", key, " [--global]"))
}

fn unknown_key(key: &str) -> (e: WsvcError)
    ensures
        e@ == WsvcErrorView::BadUsage("unknown config key: "@ + key@),
{
    WsvcError::BadUsage(join2("unknown config key: ", key))
}

/// The text of the entry that `key` names in the configuration in force.
///
/// Without any configuration the entry is reported as lacking, with the hint
/// for the author entry. An unknown key is bad usage. An entry that is not
/// set, or whose section is missing, is reported as lacking under its key.
pub fn get(config: Option<Config>, key: String) -> (r: Result<String, WsvcError>)
    ensures
        match r {
            Ok(value) => get_result(config.deep_view(), key@) == Ok::<Seq<char>, WsvcErrorView>(
                value@,
            ),
            Err(e) => get_result(config.deep_view(), key@) == Err::<Seq<char>, WsvcErrorView>(e@),
        },
{
    let config = match config {
        Some(c) => c,
        None => {
            return Err(
                WsvcError::LackOfConfig(
                    key,
                    join3("wsvc config set ", "commit.author", " [--global]"),
                ),
            );
        },
    };
    let parsed = match parse_key(key.as_str()) {
        Some(k) => k,
        None => {
            return Err(unknown_key(key.as_str()));
        },
    };
    let found = match parsed {
        ConfigKey::CommitAuthor => match config.commit {
            Some(c) => c.author,
            None => None,
        },
        ConfigKey::CommitAutoRecord => match config.commit {
            Some(c) => match c.auto_record {
                Some(true) => Some("true".to_owned()),
                Some(false) => Some("false".to_owned()),
                None => None,
            },
            None => None,
        },
        ConfigKey::AuthAccount => match config.auth {
            Some(a) => a.account,
            None => None,
        },
        ConfigKey::AuthPassword => match config.auth {
            Some(a) => a.password,
            None => None,
        },
    };
    match found {
        Some(value) => Ok(value),
        None => Err(lack_of(key.as_str())),
    }
}

/// The configuration with the entry that `key` names set to `value`. A
/// missing configuration counts as empty, and a missing section is created.
///
/// An unknown key is bad usage, and so is a value for the boolean entry that
/// is neither `true` nor `false`.
pub fn set(config: Option<Config>, key: String, value: String) -> (r: Result<Config, WsvcError>)
    ensures
        match r {
            Ok(c) => set_result(config.deep_view(), key@, value@) == Ok::<ConfigView, WsvcErrorView>(
                c@,
            ),
            Err(e) => set_result(config.deep_view(), key@, value@) == Err::<
                ConfigView,
                WsvcErrorView,
            >(e@),
        },
{
    let mut config = match config {
        Some(c) => c,
        None => Config { commit: None, auth: None },
    };
    let parsed = match parse_key(key.as_str()) {
        Some(k) => k,
        None => {
            return Err(unknown_key(key.as_str()));
        },
    };
    match parsed {
        ConfigKey::CommitAuthor => {
            let section = match config.commit {
                Some(c) => c,
                None => Commit { author: None, auto_record: None },
            };
            config.commit = Some(Commit { author: Some(value), auto_record: section.auto_record });
        },
        ConfigKey::CommitAutoRecord => {
            let flag = match parse_bool(value.as_str()) {
                Some(b) => b,
                None => {
                    return Err(WsvcError::BadUsage(join2("not a boolean: ", value.as_str())));
                },
            };
            let section = match config.commit {
                Some(c) => c,
                None => Commit { author: None, auto_record: None },
            };
            config.commit = Some(Commit { author: section.author, auto_record: Some(flag) });
        },
        ConfigKey::AuthAccount => {
            let section = match config.auth {
                Some(a) => a,
                None => Auth { account: None, password: None },
            };
            config.auth = Some(Auth { account: Some(value), password: section.password });
        },
        ConfigKey::AuthPassword => {
            let section = match config.auth {
                Some(a) => a,
                None => Auth { account: None, password: None },
            };
            config.auth = Some(Auth { account: section.account, password: Some(value) });
        },
    }
    Ok(config)
}

/// The configuration with the text entry that `key` names removed. A missing
/// configuration counts as empty, and a missing section is created.
///
/// Only the three text entries can be removed: any other key is bad usage.
pub fn unset(config: Option<Config>, key: String) -> (r: Result<Config, WsvcError>)
    ensures
        match r {
            Ok(c) => unset_result(config.deep_view(), key@) == Ok::<ConfigView, WsvcErrorView>(c@),
            Err(e) => unset_result(config.deep_view(), key@) == Err::<ConfigView, WsvcErrorView>(
                e@,
            ),
        },
{
    let mut config = match config {
        Some(c) => c,
        None => Config { commit: None, auth: None },
    };
    let parsed = match parse_key(key.as_str()) {
        Some(k) => k,
        None => {
            return Err(unknown_key(key.as_str()));
        },
    };
    match parsed {
        ConfigKey::CommitAuthor => {
            let section = match config.commit {
                Some(c) => c,
                None => Commit { author: None, auto_record: None },
            };
            config.commit = Some(Commit { author: None, auto_record: section.auto_record });
        },
        ConfigKey::CommitAutoRecord => {
            return Err(unknown_key(key.as_str()));
        },
        ConfigKey::AuthAccount => {
            let section = match config.auth {
                Some(a) => a,
                None => Auth { account: None, password: None },
            };
            config.auth = Some(Auth { account: None, password: section.password });
        },
        ConfigKey::AuthPassword => {
            let section = match config.auth {
                Some(a) => a,
                None => Auth { account: None, password: None },
            };
            config.auth = Some(Auth { account: section.account, password: None });
        },
    }
    Ok(config)
}

} // verus!
