//! The records the library hands to its caller, and the age text shown
//! beside each of them.
use vstd::prelude::*;
use crate::codec::SettingsKind;
use crate::server::Server;
use crate::text::{decimal, decimal_string};

verus! {

/// A server that has at least one profile, with its display metadata.
#[derive(Clone, Debug)]
pub struct ServerInfo {
    pub id: Server,
    pub name: String,
    pub short_name: String,
    pub color: String,
    pub supports_esi: bool,
    pub brackets_always_show: bool,
    pub server_path: String,
}

/// What the remote identity service says of a character.
#[derive(Clone, Debug)]
pub struct CharacterDetails {
    pub name: String,
    pub corporation: Option<String>,
    pub portrait_url: String,
}

/// One configuration file of a profile.
#[derive(Clone, Debug)]
pub struct SettingsEntry {
    pub path: String,
    pub id: String,
    pub kind: SettingsKind,
    pub server: Server,
    pub profile: String,
    pub display_name: String,
    pub character: Option<CharacterDetails>,
    pub alias: Option<String>,
    pub modified_time: u64,
    pub relative_time: String,
}

/// A settings folder of a server, with its account and character files each
/// in order of owner id.
#[derive(Clone, Debug)]
pub struct ProfileData {
    pub name: String,
    pub path: String,
    pub accounts: Vec<SettingsEntry>,
    pub characters: Vec<SettingsEntry>,
}

/// A server with its profiles in order of name.
#[derive(Clone, Debug)]
pub struct ServerData {
    pub info: ServerInfo,
    pub profiles: Vec<ProfileData>,
}

/// A saved copy of a configuration file.
#[derive(Clone, Debug)]
pub struct BackupEntry {
    pub id: String,
    pub name: String,
    pub path: String,
    pub timestamp: u64,
    pub kind: SettingsKind,
    pub original_id: String,
    pub original_name: Option<String>,
    pub display_name: String,
    pub relative_time: String,
}

/// Everything the caller shows: servers in declaration order and backups
/// newest first.
#[derive(Clone, Debug)]
pub struct AppData {
    pub servers: Vec<ServerData>,
    pub backups: Vec<BackupEntry>,
}

/// How long ago `ts` was at time `now` (both in seconds since the epoch), in
/// whole minutes, hours or days; a time in the future counts as now.
pub open spec fn relative_time_text(ts: u64, now: u64) -> Seq<char> {
    let diff: nat = if now >= ts {
        (now - ts) as nat
    } else {
        0
    };
    if diff < 60 {
        "just now"@
    } else if diff < 3600 {
        decimal(diff / 60) + "m ago"@
    } else if diff < 86400 {
        decimal(diff / 3600) + "h ago"@
    } else {
        decimal(diff / 86400) + "d ago"@
    }
}

/// The age of `timestamp` at time `now`, as "just now", "5m ago", "3h ago" or
/// "2d ago".
pub fn format_relative_time(timestamp: u64, now: u64) -> (r: String)
    ensures
        r@ == relative_time_text(timestamp, now),
{
    let diff = now.saturating_sub(timestamp);
    if diff < 60 {
        String::from_str("just now")
    } else if diff < 3600 {
        decimal_string(diff / 60).concat("m ago")
    } else if diff < 86400 {
        decimal_string(diff / 3600).concat("h ago")
    } else {
        decimal_string(diff / 86400).concat("d ago")
    }
}

} // verus!
