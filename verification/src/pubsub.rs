//! Publish/subscribe endpoints, as configuration.
//!
//! The bus itself is transport and lives outside this crate: connecting,
//! sending and receiving are I/O. What the library owns is the
//! configuration those connections are made from — which server to reach
//! and which channel to speak on.

use vstd::prelude::*;

verus! {

/// Where finalized bars and price snapshots are sent.
pub struct Publisher {
    url: String,
}

impl Publisher {
    /// The bus URL this publisher is configured with.
    pub closed spec fn spec_url(&self) -> Seq<char> {
        self.url@
    }

    /// A publisher for the bus at this URL.
    pub fn new(redis_url: &str) -> (r: Publisher)
        ensures
            r.spec_url() == redis_url@,
    {
        Publisher { url: redis_url.to_owned() }
    }

    /// The bus URL this publisher was configured with.
    pub fn url(&self) -> (r: &str)
        ensures
            r@ == self.spec_url(),
    {
        self.url.as_str()
    }
}

/// Where raw messages come from: one bus URL, one channel.
pub struct Subscriber {
    url: String,
    channel: String,
}

impl Subscriber {
    /// The bus URL this subscriber is configured with.
    pub closed spec fn spec_url(&self) -> Seq<char> {
        self.url@
    }

    /// The channel this subscriber is configured with.
    pub closed spec fn spec_channel(&self) -> Seq<char> {
        self.channel@
    }

    /// A subscriber for one channel of the bus at this URL.
    pub fn new(redis_url: &str, channel: &str) -> (r: Subscriber)
        ensures
            r.spec_url() == redis_url@,
            r.spec_channel() == channel@,
    {
        Subscriber { url: redis_url.to_owned(), channel: channel.to_owned() }
    }

    /// The bus URL this subscriber was configured with.
    pub fn url(&self) -> (r: &str)
        ensures
            r@ == self.spec_url(),
    {
        self.url.as_str()
    }

    /// The channel this subscriber listens on.
    pub fn channel(&self) -> (r: &str)
        ensures
            r@ == self.spec_channel(),
    {
        self.channel.as_str()
    }
}

} // verus!
