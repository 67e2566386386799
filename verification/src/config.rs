//! The settings of the bot, read from a JSON document.

use crate::json::{
    count_member, flag_member, json_count_member, json_flag_member, json_text_member, text_member,
    text_of,
};
use vstd::prelude::*;
use vstd::string::StringExecFns;

verus! {

/// The settings of the bot.
#[derive(Debug)]
pub struct Config {
    pub client_id: String,
    pub client_secret: String,
    pub username: String,
    pub password: String,
    /// How many posts of the feed one pass looks at, at most.
    pub hot_take: u8,
    pub inbox_db_filename: String,
    pub posts_db_filename: String,
    pub comments_db_filename: String,
    pub sub: String,
    /// When set, matches are recorded but no reply is sent.
    pub monitor_only: bool,
}

/// A setting is absent from the document, or is not of the kind expected.
#[derive(Debug)]
pub struct ConfigError {
    /// The name of the first such setting.
    pub field: String,
}

/// The first setting, in the order of the fields of [`Config`], that is
/// absent or out of range; `None` when all ten are there.
pub open spec fn first_missing(
    client_id: Option<Seq<char>>,
    client_secret: Option<Seq<char>>,
    username: Option<Seq<char>>,
    password: Option<Seq<char>>,
    hot_take: Option<u64>,
    inbox_db_filename: Option<Seq<char>>,
    posts_db_filename: Option<Seq<char>>,
    comments_db_filename: Option<Seq<char>>,
    sub: Option<Seq<char>>,
    monitor_only: Option<bool>,
) -> Option<Seq<char>> {
    if client_id is None {
        Some("client_id"@)
    } else if client_secret is None {
        Some("client_secret"@)
    } else if username is None {
        Some("username"@)
    } else if password is None {
        Some("password"@)
    } else if !(hot_take matches Some(n) && n <= u8::MAX) {
        Some("hot_take"@)
    } else if inbox_db_filename is None {
        Some("inbox_db_filename"@)
    } else if posts_db_filename is None {
        Some("posts_db_filename"@)
    } else if comments_db_filename is None {
        Some("comments_db_filename"@)
    } else if sub is None {
        Some("sub"@)
    } else if monitor_only is None {
        Some("monitor_only"@)
    } else {
        None
    }
}

/// The first setting that cannot be read from `document`.
pub open spec fn first_unreadable(document: Seq<char>) -> Option<Seq<char>> {
    first_missing(
        json_text_member(document, "client_id"@),
        json_text_member(document, "client_secret"@),
        json_text_member(document, "username"@),
        json_text_member(document, "password"@),
        json_count_member(document, "hot_take"@),
        json_text_member(document, "inbox_db_filename"@),
        json_text_member(document, "posts_db_filename"@),
        json_text_member(document, "comments_db_filename"@),
        json_text_member(document, "sub"@),
        json_flag_member(document, "monitor_only"@),
    )
}

fn missing(field: &str) -> (e: ConfigError)
    ensures
        e.field@ == field@,
{
    ConfigError { field: String::from_str(field) }
}

impl Config {
    /// Reads the settings from a JSON document: an object with the ten
    /// members that [`Config`] has as fields. Other members are ignored.
    pub fn new(config: &str) -> (r: Result<Config, ConfigError>)
        ensures
            match r {
                Ok(c) => {
                    &&& first_unreadable(config@) is None
                    &&& json_text_member(config@, "client_id"@) == Some(c.client_id@)
                    &&& json_text_member(config@, "client_secret"@) == Some(c.client_secret@)
                    &&& json_text_member(config@, "username"@) == Some(c.username@)
                    &&& json_text_member(config@, "password"@) == Some(c.password@)
                    &&& json_count_member(config@, "hot_take"@) == Some(c.hot_take as u64)
                    &&& json_text_member(config@, "inbox_db_filename"@) == Some(
                        c.inbox_db_filename@,
                    )
                    &&& json_text_member(config@, "posts_db_filename"@) == Some(
                        c.posts_db_filename@,
                    )
                    &&& json_text_member(config@, "comments_db_filename"@) == Some(
                        c.comments_db_filename@,
                    )
                    &&& json_text_member(config@, "sub"@) == Some(c.sub@)
                    &&& json_flag_member(config@, "monitor_only"@) == Some(c.monitor_only)
                },
                Err(e) => first_unreadable(config@) == Some(e.field@),
            },
    {
        Config::from_members(
            text_member(config, "client_id"),
            text_member(config, "client_secret"),
            text_member(config, "username"),
            text_member(config, "password"),
            count_member(config, "hot_take"),
            text_member(config, "inbox_db_filename"),
            text_member(config, "posts_db_filename"),
            text_member(config, "comments_db_filename"),
            text_member(config, "sub"),
            flag_member(config, "monitor_only"),
        )
    }

    /// Puts the settings together from what was found of each. All ten must be
    /// there, and `hot_take` must fit a byte.
    pub fn from_members(
        client_id: Option<String>,
        client_secret: Option<String>,
        username: Option<String>,
        password: Option<String>,
        hot_take: Option<u64>,
        inbox_db_filename: Option<String>,
        posts_db_filename: Option<String>,
        comments_db_filename: Option<String>,
        sub: Option<String>,
        monitor_only: Option<bool>,
    ) -> (r: Result<Config, ConfigError>)
        ensures
            match r {
                Ok(c) => {
                    &&& client_id == Some(c.client_id)
                    &&& client_secret == Some(c.client_secret)
                    &&& username == Some(c.username)
                    &&& password == Some(c.password)
                    &&& hot_take == Some(c.hot_take as u64)
                    &&& inbox_db_filename == Some(c.inbox_db_filename)
                    &&& posts_db_filename == Some(c.posts_db_filename)
                    &&& comments_db_filename == Some(c.comments_db_filename)
                    &&& sub == Some(c.sub)
                    &&& monitor_only == Some(c.monitor_only)
                },
                Err(e) => first_missing(
                    text_of(client_id),
                    text_of(client_secret),
                    text_of(username),
                    text_of(password),
                    hot_take,
                    text_of(inbox_db_filename),
                    text_of(posts_db_filename),
                    text_of(comments_db_filename),
                    text_of(sub),
                    monitor_only,
                ) == Some(e.field@),
            },
    {
        let client_id = match client_id {
            Some(v) => v,
            None => return Err(missing("client_id")),
        };
        let client_secret = match client_secret {
            Some(v) => v,
            None => return Err(missing("client_secret")),
        };
        let username = match username {
            Some(v) => v,
            None => return Err(missing("username")),
        };
        let password = match password {
            Some(v) => v,
            None => return Err(missing("password")),
        };
        let hot_take: u8 = match hot_take {
            Some(n) if n <= 255 => n as u8,
            _ => return Err(missing("hot_take")),
        };
        let inbox_db_filename = match inbox_db_filename {
            Some(v) => v,
            None => return Err(missing("inbox_db_filename")),
        };
        let posts_db_filename = match posts_db_filename {
            Some(v) => v,
            None => return Err(missing("posts_db_filename")),
        };
        let comments_db_filename = match comments_db_filename {
            Some(v) => v,
            None => return Err(missing("comments_db_filename")),
        };
        let sub = match sub {
            Some(v) => v,
            None => return Err(missing("sub")),
        };
        let monitor_only = match monitor_only {
            Some(v) => v,
            None => return Err(missing("monitor_only")),
        };
        Ok(
            Config {
                client_id,
                client_secret,
                username,
                password,
                hot_take,
                inbox_db_filename,
                posts_db_filename,
                comments_db_filename,
                sub,
                monitor_only,
            },
        )
    }
}

} // verus!
