//! Enrichment of scanned entries: which characters the identity service is
//! asked about, what its answer changes in an entry, and the server records
//! handed to the caller.
use vstd::prelude::*;
use crate::entries::{CharacterDetails, ServerData, ServerInfo, SettingsEntry};
use crate::aliases::aliased;
use crate::codec::{decoded_config, SettingsKind};
use crate::scan::{describes_file, FileListing};
use crate::identity::{copy_text, CharacterInfo};
use crate::scan::ServerScan;
use crate::server::{spec_color, spec_display_name, spec_short_name, Server};
use crate::text::{digits_value, is_digit_string, parse_digits, signed_decimal, signed_decimal_string};

verus! {

/// The smallest id the identity service gives a player character.
pub const FIRST_PLAYER_CHARACTER_ID: u64 = 90000000;

/// The character id the identity service is asked about for an entry: a
/// character file with a numeric id of at least `FIRST_PLAYER_CHARACTER_ID`
/// that fits in an `i64`, on the one server the service knows.
pub open spec fn lookup_id(e: SettingsEntry) -> Option<i64> {
    if e.kind == SettingsKind::Char && e.server == Server::Tranquility && is_digit_string(e.id@)
        && digits_value(e.id@) <= i64::MAX && digits_value(e.id@) >= FIRST_PLAYER_CHARACTER_ID {
        Some(digits_value(e.id@) as i64)
    } else {
        None
    }
}

/// The character id to look up for an entry, if any.
pub fn character_lookup_id(e: &SettingsEntry) -> (r: Option<i64>)
    ensures
        r == lookup_id(*e),
{
    if e.kind != SettingsKind::Char || !e.server.supports_esi() {
        return None;
    }
    match parse_digits(e.id.as_str(), i64::MAX as u64) {
        Some(v) => if v >= FIRST_PLAYER_CHARACTER_ID {
            Some(v as i64)
        } else {
            None
        },
        None => None,
    }
}

/// Where the portrait of a character is served.
pub open spec fn portrait_url_text(character_id: i64) -> Seq<char> {
    "https://images.evetech.net/characters/"@ + signed_decimal(character_id as int)
        + "/portrait?size=64"@
}

/// The portrait address of a character.
pub fn portrait_url(character_id: i64) -> (r: String)
    ensures
        r@ == portrait_url_text(character_id),
{
    let r = String::from_str("https://images.evetech.net/characters/").concat(
        signed_decimal_string(character_id).as_str(),
    ).concat("/portrait?size=64");
    assert(r@ =~= portrait_url_text(character_id));
    r
}

/// `r` is `e` with what the identity service said of character
/// `character_id`: its details recorded, and its name shown unless the
/// service gave an empty name, which leaves the display name as it was.
pub open spec fn enriched(e: SettingsEntry, character_id: i64, info: CharacterInfo, r: SettingsEntry) -> bool {
    &&& r.display_name == if info.name@.len() > 0 {
        info.name
    } else {
        e.display_name
    }
    &&& r.character matches Some(d) && d.name == info.name && d.corporation == info.corporation_name
        && d.portrait_url@ == portrait_url_text(character_id)
    &&& r == SettingsEntry { display_name: r.display_name, character: r.character, ..e }
}

/// Applies what the identity service said of a character to its entry.
pub fn apply_character(e: SettingsEntry, character_id: i64, info: &CharacterInfo) -> (r:
    SettingsEntry)
    ensures
        enriched(e, character_id, *info, r),
{
    let details = CharacterDetails {
        name: info.name.clone(),
        corporation: copy_text(&info.corporation_name),
        portrait_url: portrait_url(character_id),
    };
    if info.name.unicode_len() > 0 {
        SettingsEntry { display_name: info.name.clone(), character: Some(details), ..e }
    } else {
        SettingsEntry { character: Some(details), ..e }
    }
}

/// The record of a scanned server, with its brackets setting.
pub fn server_data(scan: ServerScan, brackets_always_show: bool) -> (r: ServerData)
    ensures
        r.info.id == scan.server,
        r.info.name@ == spec_display_name(scan.server),
        r.info.short_name@ == spec_short_name(scan.server),
        r.info.color@ == spec_color(scan.server),
        r.info.supports_esi == (scan.server == Server::Tranquility),
        r.info.brackets_always_show == brackets_always_show,
        r.info.server_path == scan.path,
        r.profiles == scan.profiles,
{
    let ServerScan { server, path, profiles } = scan;
    ServerData {
        info: ServerInfo {
            id: server,
            name: String::from_str(server.display_name()),
            short_name: String::from_str(server.short_name()),
            color: String::from_str(server.color()),
            supports_esi: server.supports_esi(),
            brackets_always_show,
            server_path: path,
        },
        profiles,
    }
}

/// Display names are never empty: a scanned entry shows its owner id, which
/// is never empty, and neither an alias nor an identity answer empties a
/// display name.
pub proof fn lemma_display_name_never_empty(
    e: SettingsEntry,
    f: FileListing,
    server: Server,
    profile: Seq<char>,
    now: u64,
    aliases: Map<Seq<char>, Seq<char>>,
    a: SettingsEntry,
    character_id: i64,
    info: CharacterInfo,
    r: SettingsEntry,
)
    requires
        describes_file(e, f, server, profile, now),
        aliased(e, aliases, a),
        enriched(a, character_id, info, r),
    ensures
        e.display_name@.len() > 0,
        a.display_name@.len() > 0,
        r.display_name@.len() > 0,
{
    let d = decoded_config(f.name@);
    assert(d == Some((e.kind, e.id@)));
}

} // verus!
