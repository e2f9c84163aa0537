//! The bot's settings, read from environment variables.

use vstd::prelude::*;
use vstd::string::*;

use crate::text::{push_str, string_of};

verus! {

/// The bot's settings.
pub struct Env {
    pub bot_token: String,
    pub ws_host: String,
    pub ws_url: String,
    pub api_auth_key: String,
    pub webhook_url: String,
    pub webhook_name: String,
    pub log_level: String,
}

/// A setting's value, or its default where the variable is not set.
pub open spec fn or_default(v: Option<Seq<char>>, default: Seq<char>) -> Seq<char> {
    match v {
        Some(s) => s,
        None => default,
    }
}

pub open spec fn opt_view(v: Option<String>) -> Option<Seq<char>> {
    match v {
        Some(s) => Some(s@),
        None => None,
    }
}

fn value_or(v: Option<String>, default: &str) -> (r: String)
    ensures
        r@ == or_default(opt_view(v), default@),
{
    match v {
        Some(s) => s,
        None => String::from_str(default),
    }
}

fn expected(what: &str, e: &str) -> (r: String)
    ensures
        r@ == what@ + e@,
{
    let mut m: Vec<char> = Vec::new();
    push_str(&mut m, what);
    push_str(&mut m, e);
    string_of(&m)
}

impl Env {
    /// The settings from the values of the variables: `BOT_TOKEN` and
    /// `API_AUTH_KEY` must be set (an `Err` holds why a variable could not
    /// be read), the others have defaults.
    pub fn new(
        bot_token: Result<String, String>,
        ws_host: Option<String>,
        ws_url: Option<String>,
        api_auth_key: Result<String, String>,
        webhook_url: Option<String>,
        webhook_name: Option<String>,
        log_level: Option<String>,
    ) -> (r: Result<Env, String>)
        ensures
            bot_token matches Err(e) ==> (r matches Err(m) && m@ == "Expected BOT_TOKEN: "@ + e@),
            bot_token is Ok ==> (api_auth_key matches Err(e) ==> (r matches Err(m) && m@ == "Expected API_AUTH_KEY: "@
                + e@)),
            bot_token matches Ok(t) ==> api_auth_key matches Ok(k) ==> (r matches Ok(env) && env.bot_token@ == t@
                && env.api_auth_key@ == k@ && env.ws_host@ == or_default(opt_view(ws_host), "paceman.gg:8081"@)
                && env.ws_url@ == or_default(opt_view(ws_url), "wss://paceman.gg/ws"@) && env.webhook_url@
                == or_default(opt_view(webhook_url), Seq::empty()) && env.webhook_name@ == or_default(
                opt_view(webhook_name),
                "pacemanbotlogs"@,
            ) && env.log_level@ == or_default(opt_view(log_level), "info"@)),
    {
        let bot_token = match bot_token {
            Ok(token) => token,
            Err(e) => return Err(expected("Expected BOT_TOKEN: ", e.as_str())),
        };
        let ws_host = value_or(ws_host, "paceman.gg:8081");
        let ws_url = value_or(ws_url, "wss://paceman.gg/ws");
        let api_auth_key = match api_auth_key {
            Ok(key) => key,
            Err(e) => return Err(expected("Expected API_AUTH_KEY: ", e.as_str())),
        };
        let webhook_url = value_or(webhook_url, "");
        proof {
            reveal_strlit("");
        }
        let webhook_name = value_or(webhook_name, "pacemanbotlogs");
        let log_level = value_or(log_level, "info");
        Ok(Env { bot_token, ws_host, ws_url, api_auth_key, webhook_url, webhook_name, log_level })
    }
}

/// The group of text commands: `send_message`, `setup_default_roles` and
/// `remove_pmb_roles`.
pub struct General;

impl General {
    /// The names of the group's commands.
    pub fn commands(&self) -> (r: Vec<&'static str>)
        ensures
            r@.len() == 3,
            r@[0]@ == "send_message"@,
            r@[1]@ == "setup_default_roles"@,
            r@[2]@ == "remove_pmb_roles"@,
    {
        vec!["send_message", "setup_default_roles", "remove_pmb_roles"]
    }

    /// Text commands that a bot sends are ignored.
    pub fn handles(&self, author_is_bot: bool) -> (r: bool)
        ensures
            r == !author_is_bot,
    {
        !author_is_bot
    }
}

} // verus!
