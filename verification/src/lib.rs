//! Verified core logic of the Void connectors and knowledge base.

pub mod text;
pub mod imessage;
pub mod chunking;
pub mod chunk_bounds;
pub mod normalize;
pub mod kb;
pub mod search;
pub mod googlenews;
pub mod hackernews;
pub mod reddit;
pub mod linkedin;
pub mod gmail_compose;
pub mod gmail_channel;
pub mod json;
pub mod gmail_error;
pub mod gmail_retry;
pub mod gmail_message;
pub mod paths;
pub mod time;
pub mod gmail_auth;
pub mod records;
