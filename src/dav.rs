//! Limits of the WebDAV service, and push subscriptions.
use vstd::prelude::*;

verus! {

/// The default largest request body, in bytes.
pub const DEFAULT_MAX_REQUEST_SIZE: usize = 26214400;

/// The default largest dead property, in bytes.
pub const DEFAULT_DEAD_PROPERTY_SIZE: usize = 1024;

/// The default largest live property, in bytes.
pub const DEFAULT_LIVE_PROPERTY_SIZE: usize = 250;

/// Size limits of WebDAV requests.
pub struct DavConfig {
    pub max_request_size: usize,
    /// `None` means no limit.
    pub dead_property_size: Option<usize>,
    pub live_property_size: usize,
}

impl DavConfig {
    /// Builds the limits from the configured values; a value that is absent (or
    /// could not be read) takes its default.
    pub fn parse(
        max_request_size: Option<usize>,
        dead_property_size: Option<Option<usize>>,
        live_property_size: Option<usize>,
    ) -> (r: DavConfig)
        ensures
            r.max_request_size == match max_request_size {
                Some(v) => v,
                None => DEFAULT_MAX_REQUEST_SIZE,
            },
            r.dead_property_size == match dead_property_size {
                Some(v) => v,
                None => Some(DEFAULT_DEAD_PROPERTY_SIZE),
            },
            r.live_property_size == match live_property_size {
                Some(v) => v,
                None => DEFAULT_LIVE_PROPERTY_SIZE,
            },
    {
        DavConfig {
            max_request_size: match max_request_size {
                Some(v) => v,
                None => DEFAULT_MAX_REQUEST_SIZE,
            },
            dead_property_size: match dead_property_size {
                Some(v) => v,
                None => Some(DEFAULT_DEAD_PROPERTY_SIZE),
            },
            live_property_size: match live_property_size {
                Some(v) => v,
                None => DEFAULT_LIVE_PROPERTY_SIZE,
            },
        }
    }
}

/// A push subscription of a client.
pub struct PushSubscription {
    pub url: String,
    pub device_client_id: String,
    pub expires: u64,
    pub verification_code: String,
    pub verified: bool,
    /// The kinds of objects whose changes are pushed, one bit each.
    pub types: u64,
    pub keys: Option<Keys>,
}

/// The encryption keys of a push subscription.
pub struct Keys {
    pub p256dh: Vec<u8>,
    pub auth: Vec<u8>,
}

} // verus!
