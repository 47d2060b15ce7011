//! The permission store: the groups, the player records, and the queries.

use crate::graph::Groups;
use crate::groups::{builtin_groups, GroupTable};
use crate::messages::{chat_text, format_chat};
use crate::model::{default_group_name, fresh_player, PlayerData, PlayerView};
use crate::resolve::{
    effective_permissions, group_prefix, permission_verdict, player_prefix, Players,
};
use crate::text::{contains_text, opt_text, texts};
use std::collections::HashMap;
use std::path::PathBuf;
use vstd::prelude::*;
use vstd::string::StringExecFns;

verus! {

broadcast use vstd::std_specs::hash::group_hash_axioms;

/// A location in the file system, which the store carries and never reads.
#[verifier::external_type_specification]
#[verifier::external_body]
pub struct ExPathBuf(PathBuf);

/// What a map of player records holds.
pub open spec fn players_of(records: Map<u128, PlayerData>) -> Players {
    records.map_values(|p: PlayerData| p@)
}

/// The groups and the player records of a server, with the place where they
/// are kept.
pub struct PermissionStore {
    /// Where the store is kept.
    pub data_folder: PathBuf,
    /// The groups, by name.
    pub groups: GroupTable,
    /// The player records, by the number of the player's identifier.
    pub players: HashMap<u128, PlayerData>,
}

impl PermissionStore {
    /// The groups of the store, by name.
    pub open spec fn groups(&self) -> Groups {
        self.groups@
    }

    /// The player records of the store, by identifier.
    pub open spec fn players(&self) -> Players {
        players_of(self.players@)
    }

    /// The store has the default group.
    pub open spec fn has_default(&self) -> bool {
        self.groups().contains_key(default_group_name())
    }

    /// A store at `data_folder` with the built-in default group and without
    /// players.
    pub fn new(data_folder: PathBuf) -> (r: PermissionStore)
        ensures
            r.groups() == builtin_groups(),
            r.has_default(),
            r.players() == Map::<u128, PlayerView>::empty(),
            r.data_folder == data_folder,
    {
        let mut groups = GroupTable::new();
        groups.ensure_default();
        let r = PermissionStore { data_folder, groups, players: HashMap::new() };
        assert(r.players() =~= Map::<u128, PlayerView>::empty());
        r
    }

    /// The permission nodes that the group `group_name` grants itself or
    /// inherits, each once.  A parent that is no group adds nothing, and so
    /// does a parent that was searched before.
    pub fn resolve_group_permissions(&self, group_name: &str) -> (r: Vec<String>)
        ensures
            texts(r@).to_set() == effective_permissions(self.groups(), group_name@),
            texts(r@).no_duplicates(),
    {
        self.groups.resolve_permissions(group_name)
    }

    /// The prefix of the group `group_name`: its own, or else the first that a
    /// depth-first search through its parents, in the order in which they are
    /// listed, comes upon.  No name is searched twice.
    pub fn resolve_group_prefix(&self, group_name: &str) -> (r: Option<String>)
        ensures
            opt_text(r) == group_prefix(self.groups(), group_name@),
    {
        self.groups.resolve_prefix(group_name)
    }

    /// The verdict on the permission `node` for the player `id`: denied,
    /// granted, or no opinion.
    pub fn check_permission(&self, id: u128, node: &str) -> (r: Option<bool>)
        ensures
            r == permission_verdict(self.groups(), self.players(), id, node@),
    {
        let wanted = String::from_str(node);
        let any = String::from_str("*");
        let group_perms = match self.players.get(&id) {
            Some(pd) => {
                if contains_text(&pd.denied_permissions, &wanted) {
                    return Some(false);
                }
                if contains_text(&pd.extra_permissions, &wanted) || contains_text(
                    &pd.extra_permissions,
                    &any,
                ) {
                    return Some(true);
                }
                self.resolve_group_permissions(pd.group.as_str())
            },
            None => self.resolve_group_permissions("default"),
        };
        if contains_text(&group_perms, &wanted) || contains_text(&group_perms, &any) {
            return Some(true);
        }
        None
    }

    /// The prefix shown for the player `id`: the player's own, or else that of
    /// the player's group.
    pub fn resolve_prefix(&self, id: u128) -> (r: Option<String>)
        ensures
            opt_text(r) == player_prefix(self.groups(), self.players(), id),
    {
        match self.players.get(&id) {
            Some(pd) => {
                match &pd.prefix {
                    Some(p) => Some(p.clone()),
                    None => self.resolve_group_prefix(pd.group.as_str()),
                }
            },
            None => self.resolve_group_prefix("default"),
        }
    }

    /// The record of the player `id`, made first if the store has none, with
    /// the display name set to `username`.  What the caller writes into the
    /// record is what the store then holds for `id`.
    pub fn get_or_create_player(&mut self, id: u128, username: &str) -> (r: &mut PlayerData)
        ensures
            r@ == (PlayerView {
                username: username@,
                ..(if old(self).players().contains_key(id) {
                    old(self).players()[id]
                } else {
                    fresh_player(username@)
                })
            }),
            final(self).players() == old(self).players().insert(id, final(r)@),
            final(self).groups() == old(self).groups(),
            old(self).has_default() ==> final(self).has_default(),
            final(self).data_folder == old(self).data_folder,
    {
        let pd = self.players.entry(id).or_insert(PlayerData::fresh(username));
        pd.username = String::from_str(username);
        pd
    }

    /// Whether the player `id` may use the permission `node`, where
    /// `fallback` is what holds while the store has no opinion.
    pub fn permission_or(&self, id: u128, node: &str, fallback: bool) -> (r: bool)
        ensures
            r == match permission_verdict(self.groups(), self.players(), id, node@) {
                Some(verdict) => verdict,
                None => fallback,
            },
    {
        match self.check_permission(id, node) {
            Some(verdict) => verdict,
            None => fallback,
        }
    }

    /// The line that replaces a chat message of the player `id`, shown as
    /// `player`: the message behind the player's prefix and name, or nothing
    /// where the player has no prefix and the message stays as it is.
    pub fn chat_line(&self, id: u128, player: &str, message: &str) -> (r: Option<String>)
        ensures
            opt_text(r) == match player_prefix(self.groups(), self.players(), id) {
                Some(prefix) => Some(chat_text(prefix, player@, message@)),
                None => None,
            },
    {
        match self.resolve_prefix(id) {
            Some(prefix) => Some(format_chat(prefix.as_str(), player, message)),
            None => None,
        }
    }
}

} // verus!
