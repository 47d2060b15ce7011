//! Groups and player records.

use crate::text::{opt_text, texts, Text};
use vstd::prelude::*;
use vstd::string::StringExecFns;

verus! {

/// A named set of permissions that may inherit from other groups.
#[derive(Debug, Clone, PartialEq, Eq)]
pub struct Group {
    /// Permission nodes granted by this group itself.
    pub permissions: Vec<String>,
    /// Names of the parent groups, in the order in which they are searched.
    pub inheritance: Vec<String>,
    /// Chat prefix of the group, if it has one.
    pub prefix: Option<String>,
}

/// What a `Group` holds.
pub struct GroupView {
    pub permissions: Seq<Text>,
    pub inheritance: Seq<Text>,
    pub prefix: Option<Text>,
}

impl View for Group {
    type V = GroupView;

    open spec fn view(&self) -> GroupView {
        GroupView {
            permissions: texts(self.permissions@),
            inheritance: texts(self.inheritance@),
            prefix: opt_text(self.prefix),
        }
    }
}

/// What the store knows about one player.
#[derive(Debug, Clone, PartialEq, Eq)]
pub struct PlayerData {
    /// Display name as last seen.
    pub username: String,
    /// Name of the group the player belongs to.
    pub group: String,
    /// Permission nodes granted to the player personally.
    pub extra_permissions: Vec<String>,
    /// Permission nodes taken from the player personally.
    pub denied_permissions: Vec<String>,
    /// Personal chat prefix, which replaces that of the group.
    pub prefix: Option<String>,
}

/// What a `PlayerData` holds.
pub struct PlayerView {
    pub username: Text,
    pub group: Text,
    pub extra_permissions: Seq<Text>,
    pub denied_permissions: Seq<Text>,
    pub prefix: Option<Text>,
}

impl View for PlayerData {
    type V = PlayerView;

    open spec fn view(&self) -> PlayerView {
        PlayerView {
            username: self.username@,
            group: self.group@,
            extra_permissions: texts(self.extra_permissions@),
            denied_permissions: texts(self.denied_permissions@),
            prefix: opt_text(self.prefix),
        }
    }
}

/// Name of the group that players belong to unless told otherwise.
pub open spec fn default_group_name() -> Text {
    "default"@
}

/// The wildcard node, which on the granting side stands for every node.
pub open spec fn wildcard() -> Text {
    "*"@
}

/// The record of a player that has none yet: in the default group, with no
/// grants, denials or prefix.
pub open spec fn fresh_player(username: Text) -> PlayerView {
    PlayerView {
        username,
        group: default_group_name(),
        extra_permissions: Seq::empty(),
        denied_permissions: Seq::empty(),
        prefix: None,
    }
}

/// The group that a store starts with when nothing was saved before.
pub open spec fn builtin_default_group() -> GroupView {
    GroupView {
        permissions: seq!["minecraft:command.help"@, "minecraft:command.list"@],
        inheritance: Seq::empty(),
        prefix: None,
    }
}

/// Name of the group of a player whose record does not say.
pub fn default_group() -> (r: String)
    ensures
        r@ == default_group_name(),
{
    String::from_str("default")
}

impl Group {
    /// A group without permissions, parents or prefix.
    pub fn empty() -> (r: Group)
        ensures
            r@ == (GroupView {
                permissions: Seq::empty(),
                inheritance: Seq::empty(),
                prefix: None,
            }),
    {
        let r = Group { permissions: Vec::new(), inheritance: Vec::new(), prefix: None };
        assert(r@.permissions =~= Seq::empty());
        assert(r@.inheritance =~= Seq::empty());
        r
    }

    /// The group that a store starts with when nothing was saved before.
    pub fn builtin_default() -> (r: Group)
        ensures
            r@ == builtin_default_group(),
    {
        let mut permissions: Vec<String> = Vec::new();
        permissions.push(String::from_str("minecraft:command.help"));
        permissions.push(String::from_str("minecraft:command.list"));
        let r = Group { permissions, inheritance: Vec::new(), prefix: None };
        assert(r@.permissions =~= builtin_default_group().permissions);
        assert(r@.inheritance =~= Seq::empty());
        r
    }
}

impl PlayerData {
    /// The record of a player that has none yet.
    pub fn fresh(username: &str) -> (r: PlayerData)
        ensures
            r@ == fresh_player(username@),
    {
        let r = PlayerData {
            username: String::from_str(username),
            group: default_group(),
            extra_permissions: Vec::new(),
            denied_permissions: Vec::new(),
            prefix: None,
        };
        assert(r@.extra_permissions =~= Seq::empty());
        assert(r@.denied_permissions =~= Seq::empty());
        r
    }
}

} // verus!
