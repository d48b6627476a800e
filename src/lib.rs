//! Market-data plumbing: shared publish/subscribe rings, subscription
//! reconciliation for exchange feeds, control frames and the configuration
//! that ties them together.

pub mod feed;
pub mod feed_group;
pub mod handler_config;
pub mod messages;
pub mod names;
pub mod provisioning;
pub mod requests;
pub mod resource_config;
pub mod ring;
pub mod symbols;
pub mod text;
