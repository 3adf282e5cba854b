use eve_wrench::codec::{decode_backup, decode_config, encode_backup, encode_config, SettingsKind};
use eve_wrench::entries::format_relative_time;
use eve_wrench::server::Server;
use eve_wrench::text::{decimal_string, parse_u64};

#[test]
fn config_round_trip_user_and_char() {
    for (name, kind, id) in [
        ("core_user_123.dat", SettingsKind::User, "123"),
        ("core_char_90100001.dat", SettingsKind::Char, "90100001"),
        ("core_char_0.dat", SettingsKind::Char, "0"),
    ] {
        let (k, i) = decode_config(name).unwrap();
        assert_eq!(k, kind);
        assert_eq!(i, id);
        assert_eq!(encode_config(k, &i), name);
    }
}

#[test]
fn config_rejects_foreign_names() {
    for name in [
        "",
        "core_user_.dat",
        "core_user_12a.dat",
        "core_admin_1.dat",
        "core_user_1.txt",
        "prefs.ini",
        "core_user_+1.dat",
        "core_core_user_1.dat",
        "xcore_user_1.dat",
        "core_user_1.dat.dat",
        "core_user_1_2.dat",
    ] {
        assert!(decode_config(name).is_none(), "{}", name);
    }
}

#[test]
fn backup_round_trip_with_underscores_in_label() {
    let name = encode_backup("my_best_setup", SettingsKind::Char, "90100001", 1700000000);
    assert_eq!(name, "my_best_setup_char_90100001_1700000000.bak");
    let (label, kind, id, ts) = decode_backup(&name).unwrap();
    assert_eq!(label, "my_best_setup");
    assert_eq!(kind, SettingsKind::Char);
    assert_eq!(id, "90100001");
    assert_eq!(ts, 1700000000);
}

#[test]
fn backup_round_trip_empty_label_and_zero_time() {
    let name = encode_backup("", SettingsKind::User, "5", 0);
    assert_eq!(name, "_user_5_0.bak");
    let (label, kind, id, ts) = decode_backup(&name).unwrap();
    assert_eq!(label, "");
    assert_eq!(kind, SettingsKind::User);
    assert_eq!(id, "5");
    assert_eq!(ts, 0);
}

#[test]
fn backup_decode_rejects_and_defaults() {
    assert!(decode_backup("a_user_1_2.dat").is_none());
    assert!(decode_backup("user_1_2.bak").is_none());
    assert!(decode_backup("a_admin_1_2.bak").is_none());
    let (label, _, id, ts) = decode_backup("x_user_7_notanumber.bak").unwrap();
    assert_eq!(label, "x");
    assert_eq!(id, "7");
    assert_eq!(ts, 0);
    let (_, _, _, ts) = decode_backup("x_user_7_18446744073709551615.bak").unwrap();
    assert_eq!(ts, u64::MAX);
    let (_, _, _, ts) = decode_backup("x_user_7_18446744073709551616.bak").unwrap();
    assert_eq!(ts, 0);
}

#[test]
fn decimal_and_parse_agree() {
    for n in [0u64, 9, 10, 99, 100, 1234567890, u64::MAX] {
        let s = decimal_string(n);
        assert_eq!(s, n.to_string());
        assert_eq!(parse_u64(&s), Some(n));
    }
    assert_eq!(parse_u64("+42"), Some(42));
    assert_eq!(parse_u64(""), None);
    assert_eq!(parse_u64("-1"), None);
}

#[test]
fn relative_time_buckets() {
    let now = 1_000_000u64;
    assert_eq!(format_relative_time(now, now), "just now");
    assert_eq!(format_relative_time(now - 59, now), "just now");
    assert_eq!(format_relative_time(now - 60, now), "1m ago");
    assert_eq!(format_relative_time(now - 3599, now), "59m ago");
    assert_eq!(format_relative_time(now - 3600, now), "1h ago");
    assert_eq!(format_relative_time(now - 86399, now), "23h ago");
    assert_eq!(format_relative_time(now - 86400 * 3, now), "3d ago");
    assert_eq!(format_relative_time(now + 500, now), "just now");
}

#[test]
fn server_from_folder_name_ignores_case() {
    assert_eq!(Server::from_folder_name("c_eve_sharedcache_TRANQUILITY"), Some(Server::Tranquility));
    assert_eq!(Server::from_folder_name("x_Singularity_y"), Some(Server::Singularity));
    assert_eq!(Server::from_folder_name("thunderDome"), Some(Server::Thunderdome));
    assert_eq!(Server::from_folder_name("serenity"), Some(Server::Serenity));
    assert_eq!(Server::from_folder_name("tranquility_singularity"), Some(Server::Tranquility));
    assert_eq!(Server::from_folder_name("cache"), None);
    assert_eq!(Server::from_lowercase_name("TRANQUILITY"), None);
}

#[test]
fn server_metadata() {
    assert_eq!(Server::Tranquility.display_name(), "Tranquility");
    assert_eq!(Server::Serenity.short_name(), "CN");
    assert_eq!(Server::Singularity.color(), "#f0b429");
    assert!(Server::Tranquility.supports_esi());
    assert!(!Server::Singularity.supports_esi());
    assert_eq!(
        Server::all(),
        vec![Server::Tranquility, Server::Singularity, Server::Thunderdome, Server::Serenity]
    );
}
