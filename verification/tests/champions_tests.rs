use lcu_draft::champions::{parse_champion, parse_champion_catalog, ChampionCache, ChampionData};
use lcu_draft::json::JsonValue;

fn hobj(entries: Vec<(&str, JsonValue)>) -> JsonValue {
    JsonValue::Obj(entries.into_iter().map(|(k, v)| (k.to_string(), v)).collect())
}

fn champion_entry(id: &str, key: JsonValue, name: &str) -> JsonValue {
    hobj(vec![
        ("id", JsonValue::Str(id.to_string())),
        ("key", key),
        ("name", JsonValue::Str(name.to_string())),
        ("title", JsonValue::Str("the Example".to_string())),
        (
            "tags",
            JsonValue::Arr(vec![
                JsonValue::Str("Mage".to_string()),
                JsonValue::Str("Assassin".to_string()),
            ]),
        ),
    ])
}

#[test]
fn test_parse_champion_numeric_and_string_keys() {
    let numeric = champion_entry("Ahri", JsonValue::Int(103), "Ahri");
    let c = parse_champion(&numeric).unwrap();
    assert_eq!(c.id, "Ahri");
    assert_eq!(c.key, 103);
    assert_eq!(c.name, "Ahri");
    assert_eq!(c.tags, vec!["Mage".to_string(), "Assassin".to_string()]);

    // the catalog has shipped string-encoded keys as well
    let stringly = champion_entry("Aatrox", JsonValue::Str("266".to_string()), "Aatrox");
    let c = parse_champion(&stringly).unwrap();
    assert_eq!(c.key, 266);
}

#[test]
fn test_parse_champion_key_bounds() {
    let min = champion_entry("Edge", JsonValue::Str("-9223372036854775808".to_string()), "Edge");
    assert_eq!(parse_champion(&min).unwrap().key, i64::MIN);
    let too_small =
        champion_entry("Edge", JsonValue::Str("-9223372036854775809".to_string()), "Edge");
    assert!(parse_champion(&too_small).is_none());
    let max = champion_entry("Edge", JsonValue::Str("9223372036854775807".to_string()), "Edge");
    assert_eq!(parse_champion(&max).unwrap().key, i64::MAX);
}

#[test]
fn test_parse_champion_rejects_malformed_entries() {
    let missing_key = hobj(vec![
        ("id", JsonValue::Str("Ahri".to_string())),
        ("name", JsonValue::Str("Ahri".to_string())),
        ("title", JsonValue::Str("t".to_string())),
        ("tags", JsonValue::Arr(vec![])),
    ]);
    assert!(parse_champion(&missing_key).is_none());

    let bad_key = champion_entry("Ahri", JsonValue::Str("not-a-number".to_string()), "Ahri");
    assert!(parse_champion(&bad_key).is_none());

    let mut bad_tags = champion_entry("Ahri", JsonValue::Int(103), "Ahri");
    if let JsonValue::Obj(ref mut entries) = bad_tags {
        for (k, v) in entries.iter_mut() {
            if k == "tags" {
                *v = JsonValue::Arr(vec![JsonValue::Int(1)]);
            }
        }
    }
    assert!(parse_champion(&bad_tags).is_none());
}

#[test]
fn test_parse_champion_catalog_skips_malformed() {
    let catalog = hobj(vec![(
        "data",
        hobj(vec![
            ("Ahri", champion_entry("Ahri", JsonValue::Int(103), "Ahri")),
            ("Broken", hobj(vec![("id", JsonValue::Str("Broken".to_string()))])),
            ("Aatrox", champion_entry("Aatrox", JsonValue::Str("266".to_string()), "Aatrox")),
        ]),
    )]);
    let champions = parse_champion_catalog(&catalog);
    assert_eq!(champions.len(), 2);
    assert_eq!(champions[0].id, "Ahri");
    assert_eq!(champions[1].id, "Aatrox");

    assert_eq!(parse_champion_catalog(&JsonValue::Null).len(), 0);
}

#[test]
fn test_champion_cache_lookups() {
    let mut cache = ChampionCache::new();
    assert!(cache.get_version().is_none());
    assert!(cache.get_champion_by_id(103).is_none());
    assert_eq!(cache.get_all_champions().len(), 0);

    let catalog = hobj(vec![(
        "data",
        hobj(vec![
            ("Ahri", champion_entry("Ahri", JsonValue::Int(103), "Ahri")),
            ("Aatrox", champion_entry("Aatrox", JsonValue::Int(266), "Aatrox")),
        ]),
    )]);
    let data = ChampionData {
        version: "14.1.1".to_string(),
        champions: parse_champion_catalog(&catalog),
    };
    cache.set_data(data);

    assert_eq!(cache.get_version().unwrap(), "14.1.1");
    assert_eq!(cache.get_all_champions().len(), 2);
    let found = cache.get_champion_by_id(266).unwrap();
    assert_eq!(found.id, "Aatrox");
    assert!(cache.get_champion_by_id(999).is_none());
}
