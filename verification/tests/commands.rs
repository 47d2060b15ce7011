use seed::commands::{
    add_to_list, remove_from_list, report_save, Command, GroupPermOp, Outcome, PlayerPermOp, Step,
    Target,
};
use seed::model::{Group, PlayerData};
use seed::store::PermissionStore;
use std::path::PathBuf;

fn list(items: &[&str]) -> Vec<String> {
    items.iter().map(|s| s.to_string()).collect()
}

fn new_store() -> PermissionStore {
    PermissionStore::load(PathBuf::from("data"), None, None).unwrap()
}

fn refused(message: &str) -> Outcome {
    Outcome { steps: vec![Step::Reply(message.to_string())], status: 0 }
}

fn changed(message: &str) -> Outcome {
    Outcome { steps: vec![Step::Persist, Step::Reply(message.to_string())], status: 1 }
}

fn answered(message: &str) -> Outcome {
    Outcome { steps: vec![Step::Reply(message.to_string())], status: 1 }
}

fn target(id: u128, name: &str) -> Target {
    Target { id, name: name.to_string() }
}

#[test]
fn deleting_default_group_is_always_rejected() {
    let mut store = new_store();
    assert_eq!(store.delete_group("default"), refused("Cannot delete the 'default' group"));
    assert!(store.groups.contains_key("default"));
    store.groups.remove("default");
    assert_eq!(store.delete_group("default"), refused("Cannot delete the 'default' group"));
    store.groups.insert(
        "default".to_string(),
        Group { permissions: list(&["*"]), inheritance: list(&["x"]), prefix: Some("p".into()) },
    );
    assert_eq!(store.delete_group("default"), refused("Cannot delete the 'default' group"));
    assert_eq!(store.groups.get("default").unwrap().permissions, list(&["*"]));
}

#[test]
fn delete_group_removes_or_reports_missing() {
    let mut store = new_store();
    assert_eq!(store.delete_group("vip"), refused("Group 'vip' not found"));
    store.create_group("vip");
    assert_eq!(store.delete_group("vip"), changed("Deleted group 'vip'"));
    assert!(!store.groups.contains_key("vip"));
    assert!(store.groups.contains_key("default"));
}

#[test]
fn create_group_makes_empty_group_once() {
    let mut store = new_store();
    assert_eq!(store.create_group("vip"), changed("Created group 'vip'"));
    assert_eq!(store.groups.get("vip"), Some(&Group::empty()));
    store.groups.get_mut("vip").unwrap().permissions.push("x".to_string());
    assert_eq!(store.create_group("vip"), refused("Group 'vip' already exists"));
    assert_eq!(store.groups.get("vip").unwrap().permissions, list(&["x"]));
    assert_eq!(store.create_group("default"), refused("Group 'default' already exists"));
}

#[test]
fn group_permission_add_and_remove() {
    let mut store = new_store();
    assert_eq!(
        store.change_group_permission(GroupPermOp::Add, "vip", "fly"),
        refused("Group 'vip' not found")
    );
    assert_eq!(
        store.change_group_permission(GroupPermOp::Add, "default", "fly"),
        changed("Added permission 'fly' to group 'default'")
    );
    assert_eq!(
        store.groups.get("default").unwrap().permissions,
        list(&["minecraft:command.help", "minecraft:command.list", "fly"])
    );
    assert_eq!(
        store.change_group_permission(GroupPermOp::Add, "default", "fly"),
        refused("Group 'default' already has permission 'fly'")
    );
    assert_eq!(
        store.change_group_permission(GroupPermOp::Remove, "default", "minecraft:command.help"),
        changed("Removed permission 'minecraft:command.help' from group 'default'")
    );
    assert_eq!(
        store.groups.get("default").unwrap().permissions,
        list(&["minecraft:command.list", "fly"])
    );
    assert_eq!(
        store.change_group_permission(GroupPermOp::Remove, "default", "swim"),
        refused("Group 'default' does not have permission 'swim'")
    );
    assert_eq!(
        store.change_group_permission(GroupPermOp::Remove, "nope", "swim"),
        refused("Group 'nope' not found")
    );
}

#[test]
fn removing_a_permission_takes_the_first_of_two() {
    let mut items = list(&["a", "b", "a", "c"]);
    assert!(remove_from_list(&mut items, "a"));
    assert_eq!(items, list(&["b", "a", "c"]));
    assert!(!remove_from_list(&mut items, "z"));
    assert_eq!(items, list(&["b", "a", "c"]));
    assert!(add_to_list(&mut items, "z"));
    assert!(!add_to_list(&mut items, "b"));
    assert_eq!(items, list(&["b", "a", "c", "z"]));
}

#[test]
fn group_info_shows_own_and_effective_permissions() {
    let mut store = new_store();
    assert_eq!(store.group_info("admin"), refused("Group 'admin' not found"));
    store.groups.insert(
        "admin".to_string(),
        Group {
            permissions: list(&["minecraft:command.kick", "a.first"]),
            inheritance: list(&["default", "missing"]),
            prefix: None,
        },
    );
    assert_eq!(
        store.group_info("admin"),
        Outcome {
            steps: vec![Step::Reply(
                "Group 'admin':\n  Permissions: minecraft:command.kick, a.first\n  Inheritance: default, missing\n  Effective: a.first, minecraft:command.help, minecraft:command.kick, minecraft:command.list"
                    .to_string()
            )],
            status: 1,
        }
    );
    store.groups.insert("bare".to_string(), Group::empty());
    assert_eq!(
        store.group_info("bare"),
        answered("Group 'bare':\n  Permissions: (none)\n  Inheritance: (none)\n  Effective: (none)")
    );
}

#[test]
fn group_list_counts_and_sorts_names() {
    let mut store = new_store();
    assert_eq!(store.group_list(), answered("Groups (1): default"));
    store.create_group("vip");
    store.create_group("admin");
    assert_eq!(store.group_list(), answered("Groups (3): admin, default, vip"));
    store.groups.remove("default");
    store.groups.remove("vip");
    store.groups.remove("admin");
    assert_eq!(store.group_list(), answered("Groups (0): "));
    for i in 0..12 {
        store.create_group(&format!("g{i:02}"));
    }
    assert_eq!(
        store.group_list(),
        answered("Groups (12): g00, g01, g02, g03, g04, g05, g06, g07, g08, g09, g10, g11")
    );
}

#[test]
fn set_player_group_needs_existing_group() {
    let mut store = new_store();
    let targets = vec![target(1, "a")];
    assert_eq!(store.set_player_group(&targets, "vip"), refused("Group 'vip' not found"));
    assert!(store.players.is_empty());
}

#[test]
fn set_player_group_moves_every_target_then_persists() {
    let mut store = new_store();
    store.create_group("vip");
    store.get_or_create_player(2, "old-name").extra_permissions.push("x".to_string());
    let targets = vec![target(1, "ann"), target(2, "bob")];
    assert_eq!(
        store.set_player_group(&targets, "vip"),
        Outcome {
            steps: vec![
                Step::Reply("Set ann's group to 'vip'".to_string()),
                Step::Reply("Set bob's group to 'vip'".to_string()),
                Step::Persist,
            ],
            status: 1,
        }
    );
    assert_eq!(store.players.get(&1).unwrap().group, "vip");
    assert_eq!(
        store.players.get(&2),
        Some(&PlayerData {
            username: "bob".to_string(),
            group: "vip".to_string(),
            extra_permissions: list(&["x"]),
            denied_permissions: vec![],
            prefix: None,
        })
    );
    assert_eq!(
        store.set_player_group(&vec![], "vip"),
        Outcome { steps: vec![Step::Persist], status: 1 }
    );
}

#[test]
fn player_permission_operations_report_each_target() {
    let mut store = new_store();
    let both = vec![target(1, "ann"), target(2, "bob")];
    store.get_or_create_player(2, "bob").extra_permissions.push("fly".to_string());
    assert_eq!(
        store.change_player_permission(PlayerPermOp::AddExtra, &both, "fly"),
        Outcome {
            steps: vec![
                Step::Reply("Added permission 'fly' for ann".to_string()),
                Step::Reply("bob already has extra permission 'fly'".to_string()),
                Step::Persist,
            ],
            status: 1,
        }
    );
    assert_eq!(store.players.get(&1).unwrap().extra_permissions, list(&["fly"]));
    assert_eq!(store.players.get(&2).unwrap().extra_permissions, list(&["fly"]));
    assert_eq!(
        store.change_player_permission(PlayerPermOp::Deny, &both, "swim"),
        Outcome {
            steps: vec![
                Step::Reply("Denied permission 'swim' for ann".to_string()),
                Step::Reply("Denied permission 'swim' for bob".to_string()),
                Step::Persist,
            ],
            status: 1,
        }
    );
    assert_eq!(
        store.change_player_permission(PlayerPermOp::Deny, &vec![target(1, "ann")], "swim"),
        Outcome {
            steps: vec![
                Step::Reply("ann already has denied 'swim'".to_string()),
                Step::Persist,
            ],
            status: 1,
        }
    );
    assert_eq!(store.players.get(&1).unwrap().denied_permissions, list(&["swim"]));
    assert_eq!(
        store.change_player_permission(PlayerPermOp::RemoveExtra, &both, "fly"),
        Outcome {
            steps: vec![
                Step::Reply("Removed permission 'fly' for ann".to_string()),
                Step::Reply("Removed permission 'fly' for bob".to_string()),
                Step::Persist,
            ],
            status: 1,
        }
    );
    assert_eq!(
        store.change_player_permission(PlayerPermOp::RemoveExtra, &both, "fly"),
        Outcome {
            steps: vec![
                Step::Reply("ann does not have extra permission 'fly'".to_string()),
                Step::Reply("bob does not have extra permission 'fly'".to_string()),
                Step::Persist,
            ],
            status: 1,
        }
    );
    assert_eq!(
        store.change_player_permission(PlayerPermOp::Undeny, &both, "swim"),
        Outcome {
            steps: vec![
                Step::Reply("Removed denial of 'swim' for ann".to_string()),
                Step::Reply("Removed denial of 'swim' for bob".to_string()),
                Step::Persist,
            ],
            status: 1,
        }
    );
    assert_eq!(
        store.change_player_permission(PlayerPermOp::Undeny, &vec![target(3, "cy")], "swim"),
        Outcome {
            steps: vec![
                Step::Reply("cy does not have denied 'swim'".to_string()),
                Step::Persist,
            ],
            status: 1,
        }
    );
    assert_eq!(store.players.get(&3), Some(&PlayerData::fresh("cy")));
    assert!(store.players.get(&1).unwrap().denied_permissions.is_empty());
}

#[test]
fn player_permission_on_the_same_target_twice_sees_first_change() {
    let mut store = new_store();
    let twice = vec![target(1, "ann"), target(1, "anna")];
    assert_eq!(
        store.change_player_permission(PlayerPermOp::AddExtra, &twice, "fly"),
        Outcome {
            steps: vec![
                Step::Reply("Added permission 'fly' for ann".to_string()),
                Step::Reply("anna already has extra permission 'fly'".to_string()),
                Step::Persist,
            ],
            status: 1,
        }
    );
    assert_eq!(store.players.get(&1).unwrap().username, "anna");
}

#[test]
fn player_permission_op_helpers() {
    assert!(PlayerPermOp::AddExtra.is_add());
    assert!(PlayerPermOp::Deny.is_add());
    assert!(!PlayerPermOp::RemoveExtra.is_add());
    assert!(!PlayerPermOp::Undeny.is_add());
    assert_eq!(PlayerPermOp::AddExtra.action_past(), "Added permission");
    assert_eq!(PlayerPermOp::RemoveExtra.action_past(), "Removed permission");
    assert_eq!(PlayerPermOp::Deny.action_past(), "Denied permission");
    assert_eq!(PlayerPermOp::Undeny.action_past(), "Removed denial of");
    assert_eq!(PlayerPermOp::AddExtra.already_msg(), "already has extra permission");
    assert_eq!(PlayerPermOp::Deny.already_msg(), "already has denied");
    assert_eq!(PlayerPermOp::RemoveExtra.already_msg(), "does not have extra permission");
    assert_eq!(PlayerPermOp::Undeny.already_msg(), "does not have denied");
    let mut pd = PlayerData::fresh("p");
    PlayerPermOp::AddExtra.target_list(&mut pd).push("e1".to_string());
    PlayerPermOp::RemoveExtra.target_list(&mut pd).push("e2".to_string());
    PlayerPermOp::Deny.target_list(&mut pd).push("d1".to_string());
    PlayerPermOp::Undeny.target_list(&mut pd).push("d2".to_string());
    assert_eq!(pd.extra_permissions, list(&["e1", "e2"]));
    assert_eq!(pd.denied_permissions, list(&["d1", "d2"]));
}

#[test]
fn player_info_shows_record_or_says_there_is_none() {
    let mut store = new_store();
    let id: u128 = 0xa1a2a3a4b1b2c1c2d1d2d3d4d5d6d7d8;
    store.create_group("vip");
    store.change_group_permission(GroupPermOp::Add, "vip", "vip.lounge");
    store.groups.get_mut("vip").unwrap().inheritance.push("default".to_string());
    {
        let pd = store.get_or_create_player(id, "ann");
        pd.group = "vip".to_string();
        pd.extra_permissions = list(&["zzz", "minecraft:command.help", "aaa"]);
        pd.denied_permissions = list(&["vip.lounge"]);
    }
    let out = store.player_info(&vec![target(7, "bob"), target(id, "ann")]);
    assert_eq!(
        out,
        Outcome {
            steps: vec![
                Step::Reply(
                    "Player 'bob' (00000000-0000-0000-0000-000000000007): group=default (no custom data)"
                        .to_string()
                ),
                Step::Reply(
                    "Player 'ann' (a1a2a3a4-b1b2-c1c2-d1d2-d3d4d5d6d7d8):\n  Group: vip\n  Extra: zzz, minecraft:command.help, aaa\n  Denied: vip.lounge\n  Effective: aaa, minecraft:command.help, minecraft:command.list, vip.lounge, zzz"
                        .to_string()
                ),
            ],
            status: 1,
        }
    );
    assert!(store.players.get(&7).is_none());
}

#[test]
fn reload_swaps_store_only_on_success() {
    let mut store = new_store();
    store.create_group("kept");
    let failed = store.reload(Err("Failed to parse groups.toml: bad".to_string()));
    assert_eq!(failed, refused("Reload failed: Failed to parse groups.toml: bad"));
    assert!(store.groups.contains_key("kept"));
    let mut other = PermissionStore::new(PathBuf::from("elsewhere"));
    other.create_group("fresh");
    let done = store.reload(Ok(other));
    assert_eq!(done, answered("Seed configuration reloaded"));
    assert!(!store.groups.contains_key("kept"));
    assert!(store.groups.contains_key("fresh"));
    assert_eq!(store.data_folder, PathBuf::from("elsewhere"));
}

#[test]
fn save_report_says_saved_or_why_not() {
    assert_eq!(report_save(&Ok(())), answered("Seed configuration saved"));
    assert_eq!(
        report_save(&Err("Failed to write groups.toml: denied".to_string())),
        refused("Save failed: Failed to write groups.toml: denied")
    );
}

#[test]
fn execute_dispatches_every_command() {
    let mut store = new_store();
    assert_eq!(
        store.execute(&Command::GroupCreate { name: "vip".to_string() }),
        changed("Created group 'vip'")
    );
    assert_eq!(
        store.execute(&Command::GroupPerm {
            op: GroupPermOp::Add,
            group: "vip".to_string(),
            permission: "fly".to_string(),
        }),
        changed("Added permission 'fly' to group 'vip'")
    );
    assert_eq!(
        store.execute(&Command::GroupInfo { name: "vip".to_string() }),
        answered("Group 'vip':\n  Permissions: fly\n  Inheritance: (none)\n  Effective: fly")
    );
    assert_eq!(store.execute(&Command::GroupList), answered("Groups (2): default, vip"));
    assert_eq!(
        store.execute(&Command::PlayerSetGroup {
            targets: vec![target(1, "ann")],
            group: "vip".to_string(),
        }),
        Outcome {
            steps: vec![Step::Reply("Set ann's group to 'vip'".to_string()), Step::Persist],
            status: 1,
        }
    );
    assert_eq!(
        store.execute(&Command::PlayerPerm {
            op: PlayerPermOp::Deny,
            targets: vec![target(1, "ann")],
            permission: "fly".to_string(),
        }),
        Outcome {
            steps: vec![Step::Reply("Denied permission 'fly' for ann".to_string()), Step::Persist],
            status: 1,
        }
    );
    assert_eq!(store.check_permission(1, "fly"), Some(false));
    assert_eq!(
        store.execute(&Command::PlayerInfo { targets: vec![target(1, "ann")] }),
        answered(
            "Player 'ann' (00000000-0000-0000-0000-000000000001):\n  Group: vip\n  Extra: (none)\n  Denied: fly\n  Effective: fly"
        )
    );
    assert_eq!(
        store.execute(&Command::GroupDelete { name: "default".to_string() }),
        refused("Cannot delete the 'default' group")
    );
    assert_eq!(
        store.execute(&Command::GroupDelete { name: "vip".to_string() }),
        changed("Deleted group 'vip'")
    );
}

#[test]
fn new_store_has_builtin_default_group_and_no_players() {
    let store = PermissionStore::new(PathBuf::from("somewhere"));
    assert_eq!(store.data_folder, PathBuf::from("somewhere"));
    assert_eq!(store.groups.names(), list(&["default"]));
    assert_eq!(store.groups.get("default"), Some(&Group::builtin_default()));
    assert!(store.players.is_empty());
    assert_eq!(store.check_permission(1, "minecraft:command.list"), Some(true));
}

#[test]
fn commands_leave_the_default_group_in_place() {
    let mut store = new_store();
    store.create_group("vip");
    store.change_group_permission(GroupPermOp::Remove, "default", "minecraft:command.help");
    store.change_group_permission(GroupPermOp::Remove, "default", "minecraft:command.list");
    store.delete_group("vip");
    store.delete_group("default");
    store.set_player_group(&vec![target(1, "ann")], "default");
    store.change_player_permission(PlayerPermOp::Deny, &vec![target(1, "ann")], "x");
    assert!(store.groups.contains_key("default"));
    assert_eq!(store.groups.get("default"), Some(&Group::empty()));
    store.reload(Err("no".to_string()));
    assert!(store.groups.contains_key("default"));
    store.reload(PermissionStore::load(PathBuf::from("d"), Some(vec![]), None));
    assert_eq!(store.groups.get("default"), Some(&Group::builtin_default()));
}

#[test]
fn outcome_builders() {
    assert_eq!(Outcome::refuse("no".to_string()), refused("no"));
    assert_eq!(Outcome::change("yes".to_string()), changed("yes"));
    assert_eq!(Outcome::answer("so".to_string()), answered("so"));
}

#[test]
fn inspect_answers_only_commands_that_read() {
    let mut store = new_store();
    let list = Command::GroupList;
    let info = Command::GroupInfo { name: "default".to_string() };
    let who = Command::PlayerInfo { targets: vec![target(1, "ann")] };
    let make = Command::GroupCreate { name: "vip".to_string() };
    assert!(list.reads_only() && info.reads_only() && who.reads_only());
    assert!(!make.reads_only());
    assert!(!Command::GroupDelete { name: "x".to_string() }.reads_only());
    assert!(!Command::PlayerSetGroup { targets: vec![], group: "x".to_string() }.reads_only());
    assert_eq!(store.inspect(&list), Some(answered("Groups (1): default")));
    assert_eq!(store.inspect(&make), None);
    assert!(!store.groups.contains_key("vip"));
    assert_eq!(store.inspect(&info), Some(store.execute(&info)));
    assert_eq!(store.inspect(&who), Some(store.execute(&who)));
}
