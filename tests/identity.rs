use eve_wrench::identity::{
    character_url, corporation_url, CharacterInfo, CharacterStep, CorporationInfo, CorporationStep,
    IdentityCache,
};

fn base(id: i64) -> CharacterInfo {
    CharacterInfo {
        character_id: id,
        name: "Alice".to_string(),
        corporation_id: 98000001,
        corporation_name: None,
        alliance_id: Some(99000001),
        birthday: "2010-01-01T00:00:00Z".to_string(),
        security_status_bits: Some(1.5f64.to_bits()),
    }
}

fn corp(id: i32) -> CorporationInfo {
    CorporationInfo {
        corporation_id: id,
        name: "Corp".to_string(),
        ticker: "CRP".to_string(),
        member_count: 10,
        alliance_id: None,
    }
}

#[test]
fn second_lookup_is_served_from_cache() {
    let mut cache = IdentityCache::new();
    let mut fetches = 0;
    let mut results = Vec::new();
    for _ in 0..2 {
        let info = match cache.begin_character(90100001) {
            CharacterStep::Cached(info) => info,
            CharacterStep::Fetch(id) => {
                fetches += 1;
                assert_eq!(id, 90100001);
                cache.finish_character(id, base(id), Ok(corp(98000001)))
            }
        };
        results.push(info);
    }
    assert_eq!(fetches, 1);
    assert_eq!(results[0].name, results[1].name);
    assert_eq!(results[0].corporation_name.as_deref(), Some("Corp"));
    assert_eq!(results[1].corporation_name.as_deref(), Some("Corp"));
    assert_eq!(results[1].security_status_bits, Some(1.5f64.to_bits()));
    assert_eq!(results[1].alliance_id, Some(99000001));
}

#[test]
fn failed_corporation_lookup_leaves_name_absent() {
    let mut cache = IdentityCache::new();
    let info = cache.finish_character(90100002, base(90100002), Err("ESI returned status 500".to_string()));
    assert_eq!(info.name, "Alice");
    assert!(info.corporation_name.is_none());
    match cache.begin_character(90100002) {
        CharacterStep::Cached(c) => assert!(c.corporation_name.is_none()),
        CharacterStep::Fetch(_) => panic!("not cached"),
    }
}

#[test]
fn corporation_cache() {
    let mut cache = IdentityCache::new();
    assert!(matches!(cache.begin_corporation(5), CorporationStep::Fetch(5)));
    let c = cache.finish_corporation(5, corp(5));
    assert_eq!(c.ticker, "CRP");
    match cache.begin_corporation(5) {
        CorporationStep::Cached(c) => assert_eq!(c.name, "Corp"),
        CorporationStep::Fetch(_) => panic!("not cached"),
    }
    assert!(matches!(cache.begin_character(5), CharacterStep::Fetch(5)));
}

#[test]
fn service_urls() {
    assert_eq!(character_url(90100001), "https://esi.evetech.net/latest/characters/90100001/");
    assert_eq!(corporation_url(98000001), "https://esi.evetech.net/latest/corporations/98000001/");
    assert_eq!(corporation_url(-7), "https://esi.evetech.net/latest/corporations/-7/");
    assert_eq!(character_url(i64::MIN), "https://esi.evetech.net/latest/characters/-9223372036854775808/");
}
