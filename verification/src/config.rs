//! System configuration
//!
//! The configuration is stored as JSON in a storage of its own (a flash data partition), so it
//! stays unaffected by firmware updates. Where it cannot be read or parsed, the default
//! configuration is used, which is not very useful but lets the device start.

use crate::article::ArticleId;
use crate::util::SensitiveString;
use vstd::prelude::*;

verus! {

/// Maximum size of configuration data
pub const MAX_CONFIG_SIZE: usize = 8192;

/// System configuration
#[derive(Debug)]
pub struct Config {
    /// Wifi country
    pub wifi_country: Option<[u8; 2]>,
    /// Wifi SSID to connect to
    pub wifi_ssid: String,
    /// Wifi password
    pub wifi_password: SensitiveString,
    /// Mixpanel project token for analytics (optional)
    pub mp_token: Option<String>,
    /// Vereinsflieger API username
    pub vf_username: String,
    /// MD5 (hex) of Vereinsflieger API password
    pub vf_password_md5: SensitiveString,
    /// Vereinsflieger API appkey
    pub vf_appkey: SensitiveString,
    /// Vereinsflieger API cid (optional)
    pub vf_cid: Option<u32>,
    /// Vereinsflieger article ids for purchase
    pub vf_article_ids: Vec<ArticleId>,
}

impl Config {
    /// The default configuration: no country, token or cid, empty strings and no articles
    pub open spec fn is_default(&self) -> bool {
        &&& self.wifi_country is None
        &&& self.wifi_ssid@.len() == 0
        &&& self.wifi_password.0@.len() == 0
        &&& self.mp_token is None
        &&& self.vf_username@.len() == 0
        &&& self.vf_password_md5.0@.len() == 0
        &&& self.vf_appkey.0@.len() == 0
        &&& self.vf_cid is None
        &&& self.vf_article_ids@.len() == 0
    }

    /// Number of bytes to read from a configuration storage of the given capacity: all of it,
    /// but at most `MAX_CONFIG_SIZE`
    pub fn read_size(capacity: usize) -> (r: usize)
        ensures
            r == if capacity < MAX_CONFIG_SIZE { capacity } else { MAX_CONFIG_SIZE },
    {
        if capacity < MAX_CONFIG_SIZE {
            capacity
        } else {
            MAX_CONFIG_SIZE
        }
    }

    /// The configuration in use: the parsed one, or the default one where the storage could not
    /// be read or its content not parsed
    pub fn or_default(parsed: Option<Config>) -> (r: Config)
        ensures
            match parsed {
                Some(c) => r == c,
                None => r.is_default(),
            },
    {
        match parsed {
            Some(c) => c,
            None => Config::default(),
        }
    }
}

impl Default for Config {
    fn default() -> (r: Config)
        ensures
            r.is_default(),
    {
        Config {
            wifi_country: None,
            wifi_ssid: String::new(),
            wifi_password: SensitiveString(String::new()),
            mp_token: None,
            vf_username: String::new(),
            vf_password_md5: SensitiveString(String::new()),
            vf_appkey: SensitiveString(String::new()),
            vf_cid: None,
            vf_article_ids: Vec::new(),
        }
    }
}

} // verus!
