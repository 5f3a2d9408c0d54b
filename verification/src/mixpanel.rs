//! Mixpanel API client state and its request and response data

use vstd::prelude::*;

verus! {

/// Mixpanel API client: the project token
#[derive(Debug)]
pub struct Mixpanel {
    token: String,
}

impl Mixpanel {
    /// Project token
    pub closed spec fn spec_token(&self) -> Seq<char> {
        self.token@
    }

    /// Create new Mixpanel API client using the given project token
    pub fn new(token: &str) -> (r: Self)
        ensures
            r.spec_token() == token@,
    {
        Mixpanel { token: String::from_str(token) }
    }

    /// Mixpanel API token
    pub fn token(&self) -> (r: &str)
        ensures
            r@ == self.spec_token(),
    {
        self.token.as_str()
    }
}

/// `track` response
#[derive(Debug)]
pub struct TrackResponse {
    pub error: Option<String>,
    pub status: u32,
}

/// Distinct id is either a user id (if present) or the device id
#[derive(Debug)]
pub enum DistinctId {
    User(u32),
    Device(String),
}

impl DistinctId {
    /// Distinct id of an event: its user, if it has one, else the device
    pub fn of(user_id: Option<u32>, device_id: &str) -> (r: Self)
        ensures
            match user_id {
                Some(u) => r == DistinctId::User(u),
                None => r matches DistinctId::Device(d) && d@ == device_id@,
            },
    {
        match user_id {
            Some(u) => DistinctId::User(u),
            None => DistinctId::Device(String::from_str(device_id)),
        }
    }
}

/// Event-specific custom properties (data refresh)
#[derive(Debug)]
pub struct EventPropertiesExtraDataRefresh {
    pub article_count: usize,
    pub uid_count: usize,
    pub user_count: usize,
}

/// Event-specific custom properties (authentication)
#[derive(Debug)]
pub struct EventPropertiesExtraAuthentication {
    pub uid: crate::nfc::Uid,
}

/// Event-specific custom properties (error)
#[derive(Debug)]
pub struct EventPropertiesExtraError {
    pub error_message: String,
}

} // verus!
