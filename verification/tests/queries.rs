use seed::codec::{GroupRecord, PlayerRecord};
use seed::groups::GroupTable;
use seed::model::{default_group, Group, PlayerData};
use seed::store::PermissionStore;
use seed::SeedPlugin;
use std::path::PathBuf;

fn words(items: &[&str]) -> Vec<String> {
    items.iter().map(|s| s.to_string()).collect()
}

fn group(permissions: &[&str], inheritance: &[&str], prefix: Option<&str>) -> Group {
    Group {
        permissions: words(permissions),
        inheritance: words(inheritance),
        prefix: prefix.map(|p| p.to_string()),
    }
}

fn fresh_store() -> PermissionStore {
    PermissionStore::load(PathBuf::from("data"), None, None).unwrap()
}

fn sorted(mut items: Vec<String>) -> Vec<String> {
    items.sort();
    items
}

#[test]
fn unregistered_actor_gets_default_group_permissions() {
    let store = fresh_store();
    assert_eq!(store.check_permission(1, "minecraft:command.help"), Some(true));
    assert_eq!(store.check_permission(1, "minecraft:command.list"), Some(true));
    assert_eq!(store.check_permission(1, "minecraft:command.kick"), None);
}

#[test]
fn admin_inherits_default_permissions() {
    let mut store = fresh_store();
    store.groups.insert(
        "admin".to_string(),
        group(&["minecraft:command.kick"], &["default"], None),
    );
    let got = sorted(store.resolve_group_permissions("admin"));
    assert_eq!(
        got,
        words(&["minecraft:command.help", "minecraft:command.kick", "minecraft:command.list"])
    );
}

#[test]
fn denied_permission_overrides_group_grant() {
    let mut store = fresh_store();
    let pd = store.get_or_create_player(5, "steve");
    pd.denied_permissions.push("minecraft:command.help".to_string());
    assert_eq!(store.check_permission(5, "minecraft:command.help"), Some(false));
    assert_eq!(store.check_permission(5, "minecraft:command.list"), Some(true));
}

#[test]
fn denial_beats_personal_grant_and_wildcards() {
    let mut store = fresh_store();
    store.groups.insert("all".to_string(), group(&["*"], &[], None));
    let pd = store.get_or_create_player(5, "steve");
    pd.group = "all".to_string();
    pd.extra_permissions = words(&["secret", "*"]);
    pd.denied_permissions = words(&["secret"]);
    assert_eq!(store.check_permission(5, "secret"), Some(false));
    assert_eq!(store.check_permission(5, "other"), Some(true));
}

#[test]
fn vip_prefix_and_personal_override() {
    let mut store = fresh_store();
    store.groups.insert("vip".to_string(), group(&[], &[], Some("&6[VIP]")));
    let pd = store.get_or_create_player(9, "alex");
    pd.group = "vip".to_string();
    assert_eq!(store.resolve_prefix(9), Some("&6[VIP]".to_string()));
    let pd = store.get_or_create_player(9, "alex");
    pd.prefix = Some("&c[Custom]".to_string());
    assert_eq!(store.resolve_prefix(9), Some("&c[Custom]".to_string()));
}

#[test]
fn unregistered_actor_has_prefix_of_default_group() {
    let mut store = fresh_store();
    assert_eq!(store.resolve_prefix(3), None);
    store.groups.insert("default".to_string(), group(&[], &[], Some("[D]")));
    assert_eq!(store.resolve_prefix(3), Some("[D]".to_string()));
}

#[test]
fn wildcard_in_extras_grants_everything() {
    let mut store = fresh_store();
    let pd = store.get_or_create_player(2, "op");
    pd.extra_permissions.push("*".to_string());
    assert_eq!(store.check_permission(2, "anything.at.all"), Some(true));
    assert_eq!(store.check_permission(2, "*"), Some(true));
}

#[test]
fn wildcard_in_group_grants_everything() {
    let mut store = fresh_store();
    store.groups.insert("root".to_string(), group(&["*"], &[], None));
    store.groups.insert("admin".to_string(), group(&[], &["root"], None));
    let pd = store.get_or_create_player(2, "op");
    pd.group = "admin".to_string();
    assert_eq!(store.check_permission(2, "anything.at.all"), Some(true));
}

#[test]
fn wildcard_denial_denies_only_the_literal_star() {
    let mut store = fresh_store();
    let pd = store.get_or_create_player(2, "op");
    pd.denied_permissions.push("*".to_string());
    assert_eq!(store.check_permission(2, "*"), Some(false));
    assert_eq!(store.check_permission(2, "minecraft:command.help"), Some(true));
    assert_eq!(store.check_permission(2, "minecraft:command.kick"), None);
}

#[test]
fn absent_node_yields_no_opinion() {
    let mut store = fresh_store();
    let pd = store.get_or_create_player(4, "guest");
    pd.extra_permissions.push("a".to_string());
    pd.denied_permissions.push("b".to_string());
    assert_eq!(store.check_permission(4, "c"), None);
}

#[test]
fn dangling_group_grants_nothing() {
    let mut store = fresh_store();
    let pd = store.get_or_create_player(4, "guest");
    pd.group = "nowhere".to_string();
    assert_eq!(store.check_permission(4, "minecraft:command.help"), None);
    assert_eq!(store.resolve_group_permissions("nowhere"), Vec::<String>::new());
    assert_eq!(store.resolve_group_prefix("nowhere"), None);
}

#[test]
fn self_inheritance_terminates() {
    let mut store = fresh_store();
    store.groups.insert("loop".to_string(), group(&["x"], &["loop"], None));
    assert_eq!(store.resolve_group_permissions("loop"), words(&["x"]));
    assert_eq!(store.resolve_group_prefix("loop"), None);
}

#[test]
fn mutual_inheritance_terminates_with_union() {
    let mut store = fresh_store();
    store.groups.insert("a".to_string(), group(&["pa"], &["b"], None));
    store.groups.insert("b".to_string(), group(&["pb"], &["c"], None));
    store.groups.insert("c".to_string(), group(&["pc"], &["a"], Some("[C]")));
    assert_eq!(sorted(store.resolve_group_permissions("a")), words(&["pa", "pb", "pc"]));
    assert_eq!(sorted(store.resolve_group_permissions("b")), words(&["pa", "pb", "pc"]));
    assert_eq!(store.resolve_group_prefix("a"), Some("[C]".to_string()));
}

#[test]
fn diamond_inheritance_lists_each_permission_once() {
    let mut store = fresh_store();
    store.groups.insert("base".to_string(), group(&["p", "q"], &[], None));
    store.groups.insert("left".to_string(), group(&["p", "l"], &["base"], None));
    store.groups.insert("right".to_string(), group(&["r"], &["base"], None));
    store.groups.insert("top".to_string(), group(&["t"], &["left", "right"], None));
    assert_eq!(
        sorted(store.resolve_group_permissions("top")),
        words(&["l", "p", "q", "r", "t"])
    );
}

#[test]
fn missing_parent_is_skipped() {
    let mut store = fresh_store();
    store.groups.insert("a".to_string(), group(&["pa"], &["ghost", "default"], None));
    assert_eq!(
        sorted(store.resolve_group_permissions("a")),
        words(&["minecraft:command.help", "minecraft:command.list", "pa"])
    );
}

#[test]
fn own_prefix_wins_over_inherited() {
    let mut store = fresh_store();
    store.groups.insert("base".to_string(), group(&[], &[], Some("[B]")));
    store.groups.insert("top".to_string(), group(&[], &["base"], Some("[T]")));
    assert_eq!(store.resolve_group_prefix("top"), Some("[T]".to_string()));
}

#[test]
fn prefix_search_is_depth_first_in_declared_order() {
    let mut store = fresh_store();
    store.groups.insert("deep".to_string(), group(&[], &[], Some("[deep]")));
    store.groups.insert("first".to_string(), group(&[], &["deep"], None));
    store.groups.insert("second".to_string(), group(&[], &[], Some("[second]")));
    store.groups.insert("top".to_string(), group(&[], &["first", "second"], None));
    assert_eq!(store.resolve_group_prefix("top"), Some("[deep]".to_string()));
    store.groups.insert("top".to_string(), group(&[], &["second", "first"], None));
    assert_eq!(store.resolve_group_prefix("top"), Some("[second]".to_string()));
}

#[test]
fn prefix_search_does_not_enter_a_name_twice() {
    let mut store = fresh_store();
    store.groups.insert("a".to_string(), group(&[], &["b", "c"], None));
    store.groups.insert("b".to_string(), group(&[], &["a", "c"], None));
    store.groups.insert("c".to_string(), group(&[], &[], Some("[c]")));
    assert_eq!(store.resolve_group_prefix("a"), Some("[c]".to_string()));
    store.groups.insert("c".to_string(), group(&[], &["a"], None));
    assert_eq!(store.resolve_group_prefix("a"), None);
}

#[test]
fn get_or_create_player_makes_default_record() {
    let mut store = fresh_store();
    assert!(store.players.get(&11).is_none());
    let pd = store.get_or_create_player(11, "newbie");
    assert_eq!(
        *pd,
        PlayerData {
            username: "newbie".to_string(),
            group: "default".to_string(),
            extra_permissions: vec![],
            denied_permissions: vec![],
            prefix: None,
        }
    );
    assert_eq!(store.players.len(), 1);
}

#[test]
fn get_or_create_player_refreshes_username_and_keeps_the_rest() {
    let mut store = fresh_store();
    let pd = store.get_or_create_player(11, "old");
    pd.group = "vip".to_string();
    pd.extra_permissions.push("x".to_string());
    let pd = store.get_or_create_player(11, "new");
    assert_eq!(pd.username, "new");
    assert_eq!(pd.group, "vip");
    assert_eq!(pd.extra_permissions, words(&["x"]));
    assert_eq!(store.players.len(), 1);
}

#[test]
fn permission_or_uses_fallback_only_without_opinion() {
    let mut store = fresh_store();
    let pd = store.get_or_create_player(5, "steve");
    pd.denied_permissions.push("no".to_string());
    assert!(store.permission_or(5, "minecraft:command.help", false));
    assert!(!store.permission_or(5, "no", true));
    assert!(store.permission_or(5, "unknown", true));
    assert!(!store.permission_or(5, "unknown", false));
}

#[test]
fn chat_line_puts_prefix_and_name_before_message() {
    let mut store = fresh_store();
    assert_eq!(store.chat_line(9, "alex", "hello"), None);
    store.groups.insert("vip".to_string(), group(&[], &[], Some("&6[VIP]&r")));
    let pd = store.get_or_create_player(9, "alex");
    pd.group = "vip".to_string();
    assert_eq!(
        store.chat_line(9, "alex", "hello & bye"),
        Some("§6[VIP]§r <alex> hello & bye".to_string())
    );
}

#[test]
fn group_table_insert_get_remove() {
    let mut table = GroupTable::new();
    assert!(!table.contains_key("a"));
    assert_eq!(table.insert("a".to_string(), group(&["x"], &[], None)), None);
    assert_eq!(table.insert("b".to_string(), group(&["y"], &[], None)), None);
    assert_eq!(
        table.insert("a".to_string(), group(&["z"], &[], None)),
        Some(group(&["x"], &[], None))
    );
    assert_eq!(table.get("a"), Some(&group(&["z"], &[], None)));
    assert_eq!(table.names(), words(&["a", "b"]));
    assert_eq!(table.remove("a"), Some(group(&["z"], &[], None)));
    assert_eq!(table.remove("a"), None);
    assert_eq!(table.get("a"), None);
    assert_eq!(table.names(), words(&["b"]));
}

#[test]
fn group_table_get_mut_changes_the_group_in_place() {
    let mut table = GroupTable::new();
    table.insert("a".to_string(), Group::empty());
    assert!(table.get_mut("zzz").is_none());
    table.get_mut("a").unwrap().prefix = Some("[A]".to_string());
    assert_eq!(table.get("a"), Some(&group(&[], &[], Some("[A]"))));
    assert_eq!(table.resolve_prefix("a"), Some("[A]".to_string()));
}

#[test]
fn default_group_name_and_builtin_group() {
    assert_eq!(default_group(), "default");
    assert_eq!(
        Group::builtin_default(),
        group(&["minecraft:command.help", "minecraft:command.list"], &[], None)
    );
    assert_eq!(PlayerData::fresh("x").group, "default");
}

#[test]
fn records_fill_in_what_is_left_out() {
    let empty = GroupRecord { permissions: None, inheritance: None, prefix: None };
    assert_eq!(Group::from_record(&empty), group(&[], &[], None));
    let player = PlayerRecord {
        username: None,
        group: None,
        extra_permissions: None,
        denied_permissions: Some(words(&["d"])),
        prefix: Some("[p]".to_string()),
    };
    assert_eq!(
        PlayerData::from_record(&player),
        PlayerData {
            username: String::new(),
            group: "default".to_string(),
            extra_permissions: vec![],
            denied_permissions: words(&["d"]),
            prefix: Some("[p]".to_string()),
        }
    );
}

#[test]
fn plugin_can_be_made() {
    assert_eq!(SeedPlugin::new(), SeedPlugin);
}
