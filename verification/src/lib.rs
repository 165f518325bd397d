//! Verified core of a personal site that mirrors GitHub repositories:
//! which documentation files to re-cache after a push, how a markdown page
//! is outlined, how cache keys and pub/sub channels are named and read back,
//! how webhook deliveries are authenticated, and how the site navigation is
//! derived from the cached documentation tree.
pub mod cache_event;
pub mod docs_sync;
pub mod keys;
pub mod laws;
pub mod markdown;
pub mod model;
pub mod nav;
pub mod reconcile;
pub mod ssr_state;
pub mod text;
pub mod webhook;
