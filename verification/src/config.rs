//! Configuration shape and validation.  Reading the file and the
//! environment belongs to the caller; the rules about which fields must be
//! present live here.

use vstd::prelude::*;

use crate::text::{spec_trim, str_to_chars, trim_chars};

verus! {

#[derive(Debug)]
pub struct Config {
    pub workspace: Option<String>,
    pub telegram: Option<TelegramConfig>,
    pub llm: Option<LlmConfig>,
    pub tools: Option<ToolsConfig>,
    pub heartbeat: Option<HeartbeatConfig>,
    pub restrict_to_workspace: Option<bool>,
}

#[derive(Debug)]
pub struct TelegramConfig {
    pub bot_token: Option<String>,
    pub allowed_user_ids: Option<Vec<i64>>,
    pub api_base: Option<String>,
}

#[derive(Debug)]
pub struct LlmConfig {
    pub provider: Option<String>,
    pub api_base: Option<String>,
    pub api_key: Option<String>,
    pub model: Option<String>,
}

#[derive(Debug)]
pub struct ToolsConfig {
    pub web: Option<WebConfig>,
}

#[derive(Debug)]
pub struct WebConfig {
    pub brave_api_key: Option<String>,
    pub brave_max_results: Option<u8>,
    pub web_fetch_max_chars: Option<u32>,
}

#[derive(Debug)]
pub struct HeartbeatConfig {
    pub interval_minutes: Option<u64>,
}

/// Configuration errors: reading, parsing, or a missing required field.
#[derive(Clone, Debug)]
pub enum ConfigError {
    Io(String),
    Parse(String),
    Validation(String),
}

impl ConfigError {
    /// Human-readable rendering, in the shape `config <kind>: <detail>`.
    pub fn text(&self) -> (r: String)
        ensures
            r@ == match self {
                ConfigError::Io(s) => "config io: "@ + s@,
                ConfigError::Parse(s) => "config parse: "@ + s@,
                ConfigError::Validation(s) => "config: "@ + s@,
            },
    {
        match self {
            ConfigError::Io(s) => {
                let mut r = String::new();
                r.append("config io: ");
                r.append(s.as_str());
                r
            },
            ConfigError::Parse(s) => {
                let mut r = String::new();
                r.append("config parse: ");
                r.append(s.as_str());
                r
            },
            ConfigError::Validation(s) => {
                let mut r = String::new();
                r.append("config: ");
                r.append(s.as_str());
                r
            },
        }
    }
}

/// An absent field, or one holding only whitespace.
pub open spec fn spec_blank(o: Option<String>) -> bool {
    match o {
        None => true,
        Some(s) => spec_trim(s@).len() == 0,
    }
}

fn is_blank(o: &Option<String>) -> (r: bool)
    ensures
        r == spec_blank(*o),
{
    match o {
        None => true,
        Some(s) => {
            let v = str_to_chars(s.as_str());
            let t = trim_chars(&v);
            t.len() == 0
        },
    }
}

/// What a runnable configuration must carry: a workspace, a chat transport
/// token, and the model provider's key and model name.
pub open spec fn spec_config_valid(c: Config) -> bool {
    &&& !spec_blank(c.workspace)
    &&& c.telegram matches Some(t) && !spec_blank(t.bot_token)
    &&& c.llm matches Some(l) && !spec_blank(l.api_key) && !spec_blank(l.model)
}

impl Config {
    /// Check the required fields, naming the first missing one.
    pub fn validate(&self) -> (r: Result<(), ConfigError>)
        ensures
            r is Ok <==> spec_config_valid(*self),
            r matches Err(e) ==> e is Validation,
    {
        if is_blank(&self.workspace) {
            return Err(
                ConfigError::Validation(
                    "workspace is required (set in config or ICRAB_WORKSPACE)".to_owned(),
                ),
            );
        }
        match &self.telegram {
            Some(t) => {
                if is_blank(&t.bot_token) {
                    return Err(
                        ConfigError::Validation(
                            "telegram.bot_token is required (or TELEGRAM_BOT_TOKEN)".to_owned(),
                        ),
                    );
                }
            },
            None => {
                return Err(ConfigError::Validation("telegram section is required".to_owned()));
            },
        }
        match &self.llm {
            Some(l) => {
                if is_blank(&l.api_key) {
                    return Err(
                        ConfigError::Validation(
                            "llm.api_key is required (or ICRAB_LLM_API_KEY)".to_owned(),
                        ),
                    );
                }
                if is_blank(&l.model) {
                    return Err(
                        ConfigError::Validation(
                            "llm.model is required (or ICRAB_LLM_MODEL)".to_owned(),
                        ),
                    );
                }
            },
            None => {
                return Err(ConfigError::Validation("llm section is required".to_owned()));
            },
        }
        Ok(())
    }

    /// The configured workspace path, defaulting to the current directory.
    pub fn workspace_path(&self) -> (r: &str)
        ensures
            r@ == match self.workspace {
                Some(w) => w@,
                None => "."@,
            },
    {
        match &self.workspace {
            Some(w) => w.as_str(),
            None => ".",
        }
    }
}

} // verus!
