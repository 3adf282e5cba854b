use eve_wrench::aliases::{apply_profile_aliases, set_alias, AliasMap};
use eve_wrench::codec::SettingsKind;
use eve_wrench::enrich::{apply_character, character_lookup_id, portrait_url, server_data};
use eve_wrench::identity::CharacterInfo;
use eve_wrench::scan::{
    profile_name, scan_installations, scan_profile, FileListing, ProfileListing, ServerListing,
};
use eve_wrench::server::Server;

fn file(name: &str) -> FileListing {
    FileListing { name: name.to_string(), path: format!("/root/x/{}", name), modified_time: 0 }
}

fn profile(dir: &str, files: Vec<FileListing>) -> ProfileListing {
    ProfileListing { dir_name: dir.to_string(), path: format!("/root/x/{}", dir), files }
}

fn server(dir: &str, profiles: Vec<ProfileListing>) -> ServerListing {
    ServerListing { dir_name: dir.to_string(), path: format!("/root/{}", dir), profiles }
}

#[test]
fn empty_root_scans_to_nothing() {
    assert!(scan_installations(&vec![], 100).is_empty());
    let only_foreign = vec![server("cache", vec![profile("settings_Default", vec![file("core_user_1.dat")])])];
    assert!(scan_installations(&only_foreign, 100).is_empty());
    let no_profiles = vec![server("eve_tranquility", vec![profile("other", vec![])])];
    assert!(scan_installations(&no_profiles, 100).is_empty());
}

#[test]
fn one_tranquility_profile_with_one_character() {
    let root = vec![server(
        "c_ccp_eve_TRANQUILITY",
        vec![profile("settings_Default", vec![file("core_char_90100001.dat"), file("notes.txt")])],
    )];
    let scans = scan_installations(&root, 100);
    assert_eq!(scans.len(), 1);
    assert_eq!(scans[0].server, Server::Tranquility);
    assert_eq!(scans[0].profiles.len(), 1);
    let p = &scans[0].profiles[0];
    assert_eq!(p.name, "Default");
    assert!(p.accounts.is_empty());
    assert_eq!(p.characters.len(), 1);
    let e = &p.characters[0];
    assert_eq!(e.id, "90100001");
    assert_eq!(e.kind, SettingsKind::Char);
    assert_eq!(e.display_name, "90100001");
    assert_eq!(e.profile, "Default");
    assert_eq!(e.path, "/root/x/core_char_90100001.dat");
    assert_eq!(e.relative_time, "1m ago");
}

#[test]
fn ids_sort_as_strings() {
    let p = profile(
        "settings_Default",
        vec![file("core_user_2.dat"), file("core_user_10.dat"), file("core_char_3.dat"), file("core_char_20.dat")],
    );
    let data = scan_profile(Server::Serenity, &p, 0).unwrap();
    let ids: Vec<&str> = data.accounts.iter().map(|e| e.id.as_str()).collect();
    assert_eq!(ids, vec!["10", "2"]);
    let ids: Vec<&str> = data.characters.iter().map(|e| e.id.as_str()).collect();
    assert_eq!(ids, vec!["20", "3"]);
}

#[test]
fn profiles_sorted_and_servers_in_declaration_order() {
    let root = vec![
        server("serenity", vec![profile("settings_b", vec![]), profile("settings_a", vec![])]),
        server("tranquility", vec![profile("settings_Z", vec![])]),
        server("tranquility_2", vec![profile("settings_Y", vec![])]),
    ];
    let scans = scan_installations(&root, 0);
    assert_eq!(scans.len(), 2);
    assert_eq!(scans[0].server, Server::Tranquility);
    assert_eq!(scans[0].path, "/root/tranquility_2");
    let names: Vec<&str> = scans[0].profiles.iter().map(|p| p.name.as_str()).collect();
    assert_eq!(names, vec!["Y", "Z"]);
    assert_eq!(scans[1].server, Server::Serenity);
    let names: Vec<&str> = scans[1].profiles.iter().map(|p| p.name.as_str()).collect();
    assert_eq!(names, vec!["a", "b"]);
}

#[test]
fn profile_marker_stripping() {
    assert_eq!(profile_name("settings_Default"), Some("Default".to_string()));
    assert_eq!(profile_name("settings_"), Some("".to_string()));
    assert_eq!(profile_name("settings_settings_x"), Some("x".to_string()));
    assert_eq!(profile_name("Settings_x"), None);
}

#[test]
fn alias_changes_display_name_only() {
    let p = profile("settings_Default", vec![file("core_char_90100001.dat"), file("core_char_90100002.dat")]);
    let data = scan_profile(Server::Tranquility, &p, 0).unwrap();
    let mut aliases = AliasMap::new();
    set_alias(&mut aliases, "90100001".to_string(), Some("Bob".to_string()));
    let data = apply_profile_aliases(data, &aliases);
    let e = &data.characters[0];
    assert_eq!(e.id, "90100001");
    assert_eq!(e.display_name, "Bob");
    assert_eq!(e.alias.as_deref(), Some("Bob"));
    let other = &data.characters[1];
    assert_eq!(other.display_name, "90100002");
    assert!(other.alias.is_none());
}

#[test]
fn empty_alias_keeps_owner_id() {
    let p = profile("settings_Default", vec![file("core_user_5.dat")]);
    let data = scan_profile(Server::Tranquility, &p, 0).unwrap();
    let aliases = AliasMap::from_json("{\"5\": \"\"}");
    let data = apply_profile_aliases(data, &aliases);
    assert_eq!(data.accounts[0].display_name, "5");
    assert!(data.accounts[0].alias.is_none());
}

#[test]
fn lookup_ids_and_enrichment() {
    let p = profile("settings_D", vec![file("core_char_90100001.dat"), file("core_char_1000.dat")]);
    let tq = scan_profile(Server::Tranquility, &p, 0).unwrap();
    let td = scan_profile(Server::Thunderdome, &p, 0).unwrap();
    let sisi = scan_profile(Server::Singularity, &p, 0).unwrap();
    assert_eq!(character_lookup_id(&tq.characters[0]), None);
    assert_eq!(character_lookup_id(&tq.characters[1]), Some(90100001));
    assert_eq!(character_lookup_id(&sisi.characters[1]), None);
    let accounts = scan_profile(Server::Tranquility, &profile("settings_D", vec![file("core_user_90100001.dat")]), 0).unwrap();
    assert_eq!(character_lookup_id(&accounts.accounts[0]), None);
    assert_eq!(character_lookup_id(&td.characters[1]), None);
    let info = CharacterInfo {
        character_id: 90100001,
        name: "Alice".to_string(),
        corporation_id: 1,
        corporation_name: Some("Corp".to_string()),
        alliance_id: None,
        birthday: "2010-01-01".to_string(),
        security_status_bits: None,
    };
    let e = apply_character(tq.characters[1].clone(), 90100001, &info);
    assert_eq!(e.display_name, "Alice");
    let d = e.character.unwrap();
    assert_eq!(d.corporation.as_deref(), Some("Corp"));
    assert_eq!(d.portrait_url, "https://images.evetech.net/characters/90100001/portrait?size=64");
    let nameless = CharacterInfo { name: String::new(), ..info };
    let e = apply_character(tq.characters[1].clone(), 90100001, &nameless);
    assert_eq!(e.display_name, "90100001");
    assert!(e.character.is_some());
    assert_eq!(portrait_url(-5), "https://images.evetech.net/characters/-5/portrait?size=64");
}

#[test]
fn server_record_metadata() {
    let root = vec![server("Singularity", vec![profile("settings_A", vec![])])];
    let scan = scan_installations(&root, 0).pop().unwrap();
    let data = server_data(scan, true);
    assert_eq!(data.info.name, "Singularity");
    assert_eq!(data.info.short_name, "SISI");
    assert_eq!(data.info.color, "#f0b429");
    assert!(!data.info.supports_esi);
    assert!(data.info.brackets_always_show);
    assert_eq!(data.info.server_path, "/root/Singularity");
}
