//! Discovery, classification and backup bookkeeping for per-profile game
//! client configuration files, together with the identity cache that enriches
//! character records.

pub mod text;
pub mod server;
pub mod codec;
pub mod entries;
pub mod order;
pub mod identity;
pub mod scan;
pub mod aliases;
pub mod backups;
pub mod enrich;
pub mod prefs;
