//! Wifi station settings and network state tracking

use vstd::prelude::*;
use vstd::string::StrSliceExecFns;

verus! {

/// Country code used where none is configured ("01", world safe mode)
pub open spec fn default_country() -> Seq<u8> {
    seq![0x30u8, 0x31u8]
}

/// Authentication method of the Wifi station
#[derive(Debug, Clone, Copy, PartialEq, Eq, Structural)]
pub enum AuthMethod {
    /// Open network
    Open,
    /// WPA2 with a pre-shared key
    Wpa2Personal,
}

/// Country code to configure: the configured one, else the world safe mode
pub fn country_code(country: Option<[u8; 2]>) -> (r: [u8; 2])
    ensures
        match country {
            Some(c) => r == c,
            None => r@ == default_country(),
        },
{
    match country {
        Some(c) => c,
        None => {
            let r: [u8; 2] = [0x30u8, 0x31u8];
            assert(r@ =~= default_country());
            r
        },
    }
}

/// Authentication method for a password: an open network for an empty password, else WPA2
/// personal
pub fn auth_method(password: &str) -> (r: AuthMethod)
    ensures
        password@.len() == 0 ==> r == AuthMethod::Open,
        password@.len() > 0 ==> r == AuthMethod::Wpa2Personal,
{
    if password.unicode_len() == 0 {
        AuthMethod::Open
    } else {
        AuthMethod::Wpa2Personal
    }
}

/// Last known state of the network (up: Wifi connected and IP address obtained)
#[derive(Debug)]
pub struct UpState {
    last_up: bool,
}

impl UpState {
    /// Last known state
    pub closed spec fn last(&self) -> bool {
        self.last_up
    }

    /// Network state tracking, starting with the network down
    pub fn new() -> (r: Self)
        ensures
            !r.last(),
    {
        UpState { last_up: false }
    }

    /// Take the current network state: returns it if it changed since the last one (so that the
    /// change can be reported), and remembers it
    pub fn observe(&mut self, up: bool) -> (r: Option<bool>)
        ensures
            final(self).last() == up,
            up != old(self).last() ==> r == Some(up),
            up == old(self).last() ==> r is None,
    {
        if up != self.last_up {
            self.last_up = up;
            Some(up)
        } else {
            None
        }
    }
}

} // verus!
