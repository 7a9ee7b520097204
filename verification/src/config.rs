//! The settings file: an npub to log in with, and the Bitcoin node to poll.
use vstd::prelude::*;

verus! {

/// The settings that `config.toml` may hold.
#[derive(Clone, Debug)]
pub struct Config {
    pub npub: Option<String>,
    pub node_address: Option<String>,
    pub node_username: Option<String>,
    pub node_password: Option<String>,
}

/// A setting that is present and not empty.
pub open spec fn given(o: Option<String>) -> bool {
    o is Some && o->0@.len() > 0
}

/// Where and as whom to reach the Bitcoin node.
#[derive(Clone, Debug)]
pub struct NodeCredentials {
    pub address: String,
    pub username: String,
    pub password: String,
}

fn non_empty(o: &Option<String>) -> (r: Option<String>)
    ensures
        given(*o) ==> r == *o,
        !given(*o) ==> r is None,
{
    match o {
        Some(s) => if s.as_str().is_empty() {
            None
        } else {
            Some(s.clone())
        },
        None => None,
    }
}

impl Config {
    /// The node to poll: only when address, user name and password are all
    /// given.
    pub fn node_credentials(&self) -> (r: Option<NodeCredentials>)
        ensures
            r is Some <==> given(self.node_address) && given(self.node_username) && given(
                self.node_password,
            ),
            r matches Some(c) ==> {
                &&& Some(c.address) == self.node_address
                &&& Some(c.username) == self.node_username
                &&& Some(c.password) == self.node_password
            },
    {
        match (
            non_empty(&self.node_address),
            non_empty(&self.node_username),
            non_empty(&self.node_password),
        ) {
            (Some(address), Some(username), Some(password)) => Some(
                NodeCredentials { address, username, password },
            ),
            _ => None,
        }
    }

    /// The npub to log in with automatically, when one is given.
    pub fn login_npub(&self) -> (r: Option<String>)
        ensures
            given(self.npub) ==> r == self.npub,
            !given(self.npub) ==> r is None,
    {
        non_empty(&self.npub)
    }
}

} // verus!
