//! The remote side: query strings, tokens, relay URLs, and the address under
//! which this machine is found in its network.

pub mod base64;
pub mod clock;
pub mod file_picker;
pub mod form;
pub mod lan;
pub mod listing_order;
pub mod query;
pub mod relay;
pub mod token;
pub mod windows;
