use seed::codec::{copy_strings, GroupRecord, PlayerRecord, StoreDocuments};
use seed::model::{Group, PlayerData};
use seed::store::PermissionStore;
use std::path::PathBuf;

fn texts(items: &[&str]) -> Vec<String> {
    items.iter().map(|s| s.to_string()).collect()
}

fn group_record(permissions: &[&str], inheritance: &[&str], prefix: Option<&str>) -> GroupRecord {
    GroupRecord {
        permissions: Some(texts(permissions)),
        inheritance: Some(texts(inheritance)),
        prefix: prefix.map(|p| p.to_string()),
    }
}

fn bare_player() -> PlayerRecord {
    PlayerRecord {
        username: None,
        group: None,
        extra_permissions: None,
        denied_permissions: None,
        prefix: None,
    }
}

fn by_key<T: Clone>(mut entries: Vec<(String, T)>) -> Vec<(String, T)> {
    entries.sort_by(|a, b| a.0.cmp(&b.0));
    entries
}

#[test]
fn load_without_documents_gives_builtin_default_group() {
    let store = PermissionStore::load(PathBuf::from("plugins/seed"), None, None).unwrap();
    assert_eq!(store.data_folder, PathBuf::from("plugins/seed"));
    assert_eq!(store.groups.names(), texts(&["default"]));
    assert_eq!(
        store.groups.get("default"),
        Some(&Group {
            permissions: texts(&["minecraft:command.help", "minecraft:command.list"]),
            inheritance: vec![],
            prefix: None,
        })
    );
    assert!(store.players.is_empty());
}

#[test]
fn load_adds_builtin_default_group_where_document_has_none() {
    let groups = vec![
        ("vip".to_string(), group_record(&["fly"], &["default"], Some("[V]"))),
        ("bare".to_string(), GroupRecord { permissions: None, inheritance: None, prefix: None }),
    ];
    let store = PermissionStore::load(PathBuf::from("d"), Some(groups), None).unwrap();
    assert_eq!(store.groups.names(), texts(&["vip", "bare", "default"]));
    assert_eq!(store.groups.get("bare"), Some(&Group::empty()));
    assert_eq!(store.groups.get("vip").unwrap().prefix, Some("[V]".to_string()));
    assert_eq!(store.groups.get("default"), Some(&Group::builtin_default()));
    assert_eq!(store.check_permission(1, "minecraft:command.help"), Some(true));
    assert_eq!(store.check_permission(1, "fly"), None);
}

#[test]
fn load_of_empty_groups_document_has_only_builtin_default_group() {
    let store = PermissionStore::load(PathBuf::from("d"), Some(vec![]), None).unwrap();
    assert_eq!(store.groups.names(), texts(&["default"]));
    assert_eq!(store.groups.get("default"), Some(&Group::builtin_default()));
}

#[test]
fn load_keeps_default_group_of_document_as_it_stands() {
    let groups = vec![
        ("default".to_string(), group_record(&["only.this"], &["vip"], Some("[D]"))),
        ("vip".to_string(), group_record(&["fly"], &[], None)),
    ];
    let store = PermissionStore::load(PathBuf::from("d"), Some(groups), None).unwrap();
    assert_eq!(store.groups.names(), texts(&["default", "vip"]));
    assert_eq!(
        store.groups.get("default"),
        Some(&Group {
            permissions: texts(&["only.this"]),
            inheritance: texts(&["vip"]),
            prefix: Some("[D]".to_string()),
        })
    );
    assert_eq!(store.check_permission(1, "minecraft:command.help"), None);
    assert_eq!(store.check_permission(1, "fly"), Some(true));
}

#[test]
fn load_later_group_record_replaces_earlier() {
    let groups = vec![
        ("a".to_string(), group_record(&["one"], &[], None)),
        ("b".to_string(), group_record(&[], &[], None)),
        ("a".to_string(), group_record(&["two"], &[], None)),
    ];
    let store = PermissionStore::load(PathBuf::from("d"), Some(groups), None).unwrap();
    assert_eq!(store.groups.names(), texts(&["a", "b", "default"]));
    assert_eq!(store.groups.get("a").unwrap().permissions, texts(&["two"]));
}

#[test]
fn load_reads_player_keys_as_identifiers() {
    let players = vec![
        ("a1a2a3a4-b1b2-c1c2-d1d2-d3d4d5d6d7d8".to_string(), bare_player()),
        (
            "0000000000000000000000000000000A".to_string(),
            PlayerRecord {
                username: Some("ten".to_string()),
                group: Some("vip".to_string()),
                extra_permissions: Some(texts(&["x"])),
                denied_permissions: Some(texts(&["y"])),
                prefix: Some("[t]".to_string()),
            },
        ),
        ("{00000000-0000-0000-0000-00000000000b}".to_string(), bare_player()),
        ("urn:uuid:00000000-0000-0000-0000-00000000000c".to_string(), bare_player()),
    ];
    let store = PermissionStore::load(PathBuf::from("d"), None, Some(players)).unwrap();
    assert_eq!(store.players.len(), 4);
    assert_eq!(
        store.players.get(&0xa1a2a3a4b1b2c1c2d1d2d3d4d5d6d7d8),
        Some(&PlayerData {
            username: String::new(),
            group: "default".to_string(),
            extra_permissions: vec![],
            denied_permissions: vec![],
            prefix: None,
        })
    );
    assert_eq!(
        store.players.get(&10),
        Some(&PlayerData {
            username: "ten".to_string(),
            group: "vip".to_string(),
            extra_permissions: texts(&["x"]),
            denied_permissions: texts(&["y"]),
            prefix: Some("[t]".to_string()),
        })
    );
    assert!(store.players.contains_key(&11));
    assert!(store.players.contains_key(&12));
}

#[test]
fn load_later_player_record_for_same_identifier_replaces_earlier() {
    let mut first = bare_player();
    first.username = Some("first".to_string());
    let mut second = bare_player();
    second.username = Some("second".to_string());
    let players = vec![
        ("00000000-0000-0000-0000-0000000000ff".to_string(), first),
        ("000000000000000000000000000000FF".to_string(), second),
    ];
    let store = PermissionStore::load(PathBuf::from("d"), None, Some(players)).unwrap();
    assert_eq!(store.players.len(), 1);
    assert_eq!(store.players.get(&255).unwrap().username, "second");
}

#[test]
fn load_rejects_key_that_is_no_identifier() {
    let players = vec![
        ("00000000-0000-0000-0000-000000000001".to_string(), bare_player()),
        ("not-a-uuid".to_string(), bare_player()),
        ("also bad".to_string(), bare_player()),
    ];
    let result = PermissionStore::load(PathBuf::from("d"), None, Some(players));
    let reason = uuid::Uuid::parse_str("not-a-uuid").unwrap_err().to_string();
    assert!(!reason.is_empty());
    match result {
        Ok(_) => panic!("a key that is no identifier was accepted"),
        Err(message) => assert_eq!(message, format!("Invalid UUID 'not-a-uuid': {reason}")),
    }
}

#[test]
fn load_error_names_the_first_key_that_is_no_identifier() {
    let players = vec![
        ("0000000000000000000000000000000g".to_string(), bare_player()),
        ("zz".to_string(), bare_player()),
    ];
    let result = PermissionStore::load(PathBuf::from("d"), None, Some(players));
    let reason =
        uuid::Uuid::parse_str("0000000000000000000000000000000g").unwrap_err().to_string();
    assert_eq!(
        result.err(),
        Some(format!("Invalid UUID '0000000000000000000000000000000g': {reason}"))
    );
}

#[test]
fn load_rejects_empty_key() {
    let result = PermissionStore::load(
        PathBuf::from("d"),
        None,
        Some(vec![(String::new(), bare_player())]),
    );
    match result {
        Ok(_) => panic!("the empty key was accepted"),
        Err(message) => assert!(message.starts_with("Invalid UUID '': ")),
    }
}

#[test]
fn save_writes_full_records_under_names_and_identifier_texts() {
    let mut store = PermissionStore::load(PathBuf::from("d"), None, None).unwrap();
    store.create_group("vip");
    store.groups.get_mut("vip").unwrap().prefix = Some("[V]".to_string());
    store.get_or_create_player(0xa1a2a3a4b1b2c1c2d1d2d3d4d5d6d7d8, "ann").group = "vip".to_string();
    store.get_or_create_player(7, "bob").denied_permissions.push("x".to_string());
    let docs = store.save();
    assert_eq!(
        docs.groups,
        vec![
            (
                "default".to_string(),
                group_record(&["minecraft:command.help", "minecraft:command.list"], &[], None)
            ),
            ("vip".to_string(), group_record(&[], &[], Some("[V]"))),
        ]
    );
    assert_eq!(
        by_key(docs.players),
        vec![
            (
                "00000000-0000-0000-0000-000000000007".to_string(),
                PlayerRecord {
                    username: Some("bob".to_string()),
                    group: Some("default".to_string()),
                    extra_permissions: Some(vec![]),
                    denied_permissions: Some(texts(&["x"])),
                    prefix: None,
                }
            ),
            (
                "a1a2a3a4-b1b2-c1c2-d1d2-d3d4d5d6d7d8".to_string(),
                PlayerRecord {
                    username: Some("ann".to_string()),
                    group: Some("vip".to_string()),
                    extra_permissions: Some(vec![]),
                    denied_permissions: Some(vec![]),
                    prefix: None,
                }
            ),
        ]
    );
}

#[test]
fn saved_documents_load_to_an_equal_store() {
    let mut store = PermissionStore::load(PathBuf::from("d"), None, None).unwrap();
    store.create_group("vip");
    store.groups.get_mut("vip").unwrap().inheritance.push("default".to_string());
    store.groups.get_mut("vip").unwrap().prefix = Some("&6[VIP]".to_string());
    for id in [1u128, 2, u128::MAX, 1 << 100] {
        let pd = store.get_or_create_player(id, "p");
        pd.extra_permissions.push(format!("extra.{id}"));
        pd.denied_permissions.push("*".to_string());
        pd.prefix = if id == 2 { Some("[two]".to_string()) } else { None };
    }
    let StoreDocuments { groups, players } = store.save();
    let again =
        PermissionStore::load(PathBuf::from("d"), Some(groups), Some(players)).unwrap();
    assert_eq!(again.groups.names(), store.groups.names());
    for name in store.groups.names() {
        assert_eq!(again.groups.get(&name), store.groups.get(&name));
    }
    assert_eq!(again.players, store.players);
    assert_eq!(again.save().groups, store.save().groups);
}

#[test]
fn records_of_groups_and_players_round_trip() {
    let group = Group {
        permissions: texts(&["a", "b"]),
        inheritance: texts(&["c"]),
        prefix: Some("p".to_string()),
    };
    assert_eq!(Group::from_record(&group.to_record()), group);
    assert_eq!(group.to_record(), group_record(&["a", "b"], &["c"], Some("p")));
    let player = PlayerData {
        username: "n".to_string(),
        group: "g".to_string(),
        extra_permissions: texts(&["e"]),
        denied_permissions: texts(&["d"]),
        prefix: None,
    };
    assert_eq!(PlayerData::from_record(&player.to_record()), player);
}

#[test]
fn copy_strings_copies() {
    assert_eq!(copy_strings(&texts(&["a", "", "b"])), texts(&["a", "", "b"]));
    assert_eq!(copy_strings(&vec![]), Vec::<String>::new());
}
