//! The administrative commands: what each does to the store, what it
//! answers, and whether the store is to be written afterwards.

use crate::graph::Groups;
use crate::ident::{format_uuid, uuid_text};
use crate::messages::{
    cannot_delete_default, cannot_delete_default_text, group_created, group_created_text,
    group_deleted, group_deleted_text, group_exists, group_exists_text, group_has_permission,
    group_has_permission_text, group_lacks_permission, group_lacks_permission_text, group_listing,
    group_listing_text, group_not_found, group_not_found_text, group_report, group_report_text,
    group_set, group_set_text, permission_added, permission_added_text, permission_removed,
    permission_removed_text, player_changed, player_changed_text, player_report,
    player_report_text, player_unchanged, player_unchanged_text, player_unknown,
    player_unknown_text, reload_failed, reload_failed_text, reloaded, reloaded_text, save_failed,
    save_failed_text, saved, saved_text,
};
use crate::model::{default_group_name, fresh_player, Group, GroupView, PlayerData, PlayerView};
use crate::resolve::{effective_permissions, Players};
use crate::store::PermissionStore;
use crate::text::{
    contains_text, decimal, decimal_text, first_index, format_list, format_sorted_list, join,
    joined, lemma_first_index, lemma_sorted_set, lemma_texts_push, list_text, position_of,
    push_unique, sorted_copy, sorted_set, texts, Text,
};
use vstd::prelude::*;
use vstd::string::StringExecFns;

verus! {

/// One thing that is to be done after a command, in the order given.
#[derive(Debug, Clone, PartialEq, Eq)]
pub enum Step {
    /// Send this message to whoever gave the command.
    Reply(String),
    /// Write the store.  If that fails, the command has failed, and the
    /// steps after this one are left out.
    Persist,
}

/// What a `Step` holds.
pub enum StepView {
    Reply(Text),
    Persist,
}

impl View for Step {
    type V = StepView;

    open spec fn view(&self) -> StepView {
        match self {
            Step::Reply(s) => StepView::Reply(s@),
            Step::Persist => StepView::Persist,
        }
    }
}

/// What a list of steps holds.
pub open spec fn steps_view(steps: Seq<Step>) -> Seq<StepView> {
    Seq::new(steps.len(), |i: int| steps[i]@)
}

/// What follows from a command: the steps to be taken, and the number that
/// the command hands back, 1 where it did its work and 0 where it did not.
#[derive(Debug, Clone, PartialEq, Eq)]
pub struct Outcome {
    pub steps: Vec<Step>,
    pub status: i32,
}

/// What an `Outcome` holds.
pub struct OutcomeView {
    pub steps: Seq<StepView>,
    pub status: int,
}

impl View for Outcome {
    type V = OutcomeView;

    open spec fn view(&self) -> OutcomeView {
        OutcomeView { steps: steps_view(self.steps@), status: self.status as int }
    }
}

/// The command was refused with `message`; the store is as it was.
pub open spec fn refused(message: Text) -> OutcomeView {
    OutcomeView { steps: seq![StepView::Reply(message)], status: 0 }
}

/// The command changed the store, which is to be written before `message`
/// is sent.
pub open spec fn changed(message: Text) -> OutcomeView {
    OutcomeView { steps: seq![StepView::Persist, StepView::Reply(message)], status: 1 }
}

/// The command was answered with `message`, and nothing is written.
pub open spec fn answered(message: Text) -> OutcomeView {
    OutcomeView { steps: seq![StepView::Reply(message)], status: 1 }
}

impl Outcome {
    /// The outcome of a command that was refused with `message`.
    pub fn refuse(message: String) -> (r: Outcome)
        ensures
            r@ == refused(message@),
    {
        let mut steps: Vec<Step> = Vec::new();
        steps.push(Step::Reply(message));
        let r = Outcome { steps, status: 0 };
        assert(r@.steps =~= seq![StepView::Reply(message@)]);
        r
    }

    /// The outcome of a command that changed the store and reports it with
    /// `message` once the store is written.
    pub fn change(message: String) -> (r: Outcome)
        ensures
            r@ == changed(message@),
    {
        let mut steps: Vec<Step> = Vec::new();
        steps.push(Step::Persist);
        steps.push(Step::Reply(message));
        let r = Outcome { steps, status: 1 };
        assert(r@.steps =~= seq![StepView::Persist, StepView::Reply(message@)]);
        r
    }

    /// The outcome of a command that is answered with `message`.
    pub fn answer(message: String) -> (r: Outcome)
        ensures
            r@ == answered(message@),
    {
        let mut steps: Vec<Step> = Vec::new();
        steps.push(Step::Reply(message));
        let r = Outcome { steps, status: 1 };
        assert(r@.steps =~= seq![StepView::Reply(message@)]);
        r
    }
}

/// What is done to the permissions of a group.
#[derive(Debug, Clone, Copy, PartialEq, Eq)]
pub enum GroupPermOp {
    Add,
    Remove,
}

/// A group without permissions, parents or prefix.
pub open spec fn empty_group() -> GroupView {
    GroupView { permissions: Seq::empty(), inheritance: Seq::empty(), prefix: None }
}

/// The groups after the command to make the group `name`.
pub open spec fn groups_after_create(groups: Groups, name: Text) -> Groups {
    if groups.contains_key(name) {
        groups
    } else {
        groups.insert(name, empty_group())
    }
}

/// The outcome of the command to make the group `name`.
pub open spec fn create_outcome(groups: Groups, name: Text) -> OutcomeView {
    if groups.contains_key(name) {
        refused(group_exists_text(name))
    } else {
        changed(group_created_text(name))
    }
}

/// The groups after the command to delete the group `name`: the default
/// group stays whatever it holds.
pub open spec fn groups_after_delete(groups: Groups, name: Text) -> Groups {
    if name == default_group_name() {
        groups
    } else {
        groups.remove(name)
    }
}

/// The outcome of the command to delete the group `name`.
pub open spec fn delete_outcome(groups: Groups, name: Text) -> OutcomeView {
    if name == default_group_name() {
        refused(cannot_delete_default_text())
    } else if !groups.contains_key(name) {
        refused(group_not_found_text(name))
    } else {
        changed(group_deleted_text(name))
    }
}

/// A list with `item` added at the end, or as it was where it has the item.
pub open spec fn list_with(list: Seq<Text>, item: Text) -> Seq<Text> {
    if list.contains(item) {
        list
    } else {
        list.push(item)
    }
}

/// A list without the first entry that is `item`, or as it was where it has
/// no such entry.
pub open spec fn list_without(list: Seq<Text>, item: Text) -> Seq<Text> {
    if list.contains(item) {
        list.remove(first_index(list, item))
    } else {
        list
    }
}

/// The permissions of a group after `op` on `permission`.
pub open spec fn permissions_after(op: GroupPermOp, list: Seq<Text>, permission: Text) -> Seq<
    Text,
> {
    match op {
        GroupPermOp::Add => list_with(list, permission),
        GroupPermOp::Remove => list_without(list, permission),
    }
}

/// The groups after the command that does `op` with `permission` to the
/// group `group`.
pub open spec fn groups_after_perm(
    groups: Groups,
    op: GroupPermOp,
    group: Text,
    permission: Text,
) -> Groups {
    if groups.contains_key(group) {
        groups.insert(
            group,
            GroupView {
                permissions: permissions_after(op, groups[group].permissions, permission),
                ..groups[group]
            },
        )
    } else {
        groups
    }
}

/// The outcome of the command that does `op` with `permission` to the group
/// `group`.
pub open spec fn perm_outcome(groups: Groups, op: GroupPermOp, group: Text, permission: Text) -> OutcomeView {
    if !groups.contains_key(group) {
        refused(group_not_found_text(group))
    } else {
        let has = groups[group].permissions.contains(permission);
        match op {
            GroupPermOp::Add => if has {
                refused(group_has_permission_text(group, permission))
            } else {
                changed(permission_added_text(permission, group))
            },
            GroupPermOp::Remove => if has {
                changed(permission_removed_text(permission, group))
            } else {
                refused(group_lacks_permission_text(group, permission))
            },
        }
    }
}

/// Adds `item` to `list` unless it is there; says whether it was added.
pub fn add_to_list(list: &mut Vec<String>, item: &str) -> (added: bool)
    ensures
        texts(final(list)@) == list_with(texts(old(list)@), item@),
        added == !texts(old(list)@).contains(item@),
{
    let wanted = String::from_str(item);
    if contains_text(list, &wanted) {
        false
    } else {
        proof {
            lemma_texts_push(list@, wanted);
        }
        list.push(wanted);
        true
    }
}

/// Takes the first entry equal to `item` out of `list`; says whether there
/// was one.
pub fn remove_from_list(list: &mut Vec<String>, item: &str) -> (removed: bool)
    ensures
        texts(final(list)@) == list_without(texts(old(list)@), item@),
        removed == texts(old(list)@).contains(item@),
{
    let wanted = String::from_str(item);
    match position_of(list, &wanted) {
        Some(at) => {
            proof {
                lemma_first_index(texts(list@), item@);
                assert(texts(list@.remove(at as int)) =~= texts(list@).remove(at as int));
            }
            list.remove(at);
            true
        },
        None => false,
    }
}

impl PermissionStore {
    /// The command to make a group: refused where there is a group of that
    /// name, else the store gets a group without permissions, parents or
    /// prefix.
    pub fn create_group(&mut self, name: &str) -> (r: Outcome)
        ensures
            final(self).groups() == groups_after_create(old(self).groups(), name@),
            final(self).players() == old(self).players(),
            final(self).data_folder == old(self).data_folder,
            old(self).has_default() ==> final(self).has_default(),
            r@ == create_outcome(old(self).groups(), name@),
    {
        if self.groups.contains_key(name) {
            return Outcome::refuse(group_exists(name));
        }
        self.groups.insert(String::from_str(name), Group::empty());
        Outcome::change(group_created(name))
    }

    /// The command to delete a group: refused for the default group, whatever
    /// it holds, and where there is no group of that name.
    pub fn delete_group(&mut self, name: &str) -> (r: Outcome)
        ensures
            final(self).groups() == groups_after_delete(old(self).groups(), name@),
            final(self).players() == old(self).players(),
            final(self).data_folder == old(self).data_folder,
            old(self).has_default() ==> final(self).has_default(),
            r@ == delete_outcome(old(self).groups(), name@),
    {
        let key = String::from_str(name);
        if key == crate::model::default_group() {
            return Outcome::refuse(cannot_delete_default());
        }
        match self.groups.remove(name) {
            None => Outcome::refuse(group_not_found(name)),
            Some(_) => Outcome::change(group_deleted(name)),
        }
    }

    /// The command to give a group a permission or to take one from it:
    /// refused where there is no such group, where the permission to be
    /// given is there already, and where the one to be taken is not there.
    pub fn change_group_permission(&mut self, op: GroupPermOp, group: &str, permission: &str) -> (r:
        Outcome)
        ensures
            final(self).groups() == groups_after_perm(
                old(self).groups(),
                op,
                group@,
                permission@,
            ),
            final(self).players() == old(self).players(),
            final(self).data_folder == old(self).data_folder,
            old(self).has_default() ==> final(self).has_default(),
            r@ == perm_outcome(old(self).groups(), op, group@, permission@),
    {
        let ghost before = self.groups();
        match self.groups.get_mut(group) {
            None => Outcome::refuse(group_not_found(group)),
            Some(held) => {
                match op {
                    GroupPermOp::Add => {
                        if add_to_list(&mut held.permissions, permission) {
                            Outcome::change(permission_added(permission, group))
                        } else {
                            proof {
                                assert(before.insert(group@, before[group@]) =~= before);
                            }
                            Outcome::refuse(group_has_permission(group, permission))
                        }
                    },
                    GroupPermOp::Remove => {
                        if remove_from_list(&mut held.permissions, permission) {
                            Outcome::change(permission_removed(permission, group))
                        } else {
                            proof {
                                assert(before.insert(group@, before[group@]) =~= before);
                            }
                            Outcome::refuse(group_lacks_permission(group, permission))
                        }
                    },
                }
            },
        }
    }
}

/// What is done to the personal permissions of a player.
#[derive(Debug, Clone, Copy, PartialEq, Eq)]
pub enum PlayerPermOp {
    /// Grant a permission.
    AddExtra,
    /// Take a grant back.
    RemoveExtra,
    /// Deny a permission.
    Deny,
    /// Take a denial back.
    Undeny,
}

impl PlayerPermOp {
    /// Whether the operation works on the denials rather than the grants.
    pub open spec fn on_denials(self) -> bool {
        self is Deny || self is Undeny
    }

    /// Whether the operation adds to its list rather than takes from it.
    pub open spec fn adds(self) -> bool {
        self is AddExtra || self is Deny
    }

    /// The list of `player` that the operation works on.
    pub open spec fn list_of(self, player: PlayerView) -> Seq<Text> {
        if self.on_denials() {
            player.denied_permissions
        } else {
            player.extra_permissions
        }
    }

    /// `player` with `list` in place of the list that the operation works
    /// on.
    pub open spec fn with_list(self, player: PlayerView, list: Seq<Text>) -> PlayerView {
        if self.on_denials() {
            PlayerView { denied_permissions: list, ..player }
        } else {
            PlayerView { extra_permissions: list, ..player }
        }
    }

    /// The list after the operation on `permission`.
    pub open spec fn list_after(self, list: Seq<Text>, permission: Text) -> Seq<Text> {
        if self.adds() {
            list_with(list, permission)
        } else {
            list_without(list, permission)
        }
    }

    /// How the operation is named when it was carried out.
    pub open spec fn action_text(self) -> Text {
        match self {
            PlayerPermOp::AddExtra => "Added permission"@,
            PlayerPermOp::RemoveExtra => "Removed permission"@,
            PlayerPermOp::Deny => "Denied permission"@,
            PlayerPermOp::Undeny => "Removed denial of"@,
        }
    }

    /// What is said of the player where the operation had nothing to do.
    pub open spec fn already_text(self) -> Text {
        match self {
            PlayerPermOp::AddExtra => "already has extra permission"@,
            PlayerPermOp::Deny => "already has denied"@,
            PlayerPermOp::RemoveExtra => "does not have extra permission"@,
            PlayerPermOp::Undeny => "does not have denied"@,
        }
    }

    /// The list of `pd` that the operation works on: the grants or the
    /// denials.  What the caller writes into it is what `pd` then holds.
    pub fn target_list(self, pd: &mut PlayerData) -> (r: &mut Vec<String>)
        ensures
            texts(r@) == self.list_of(old(pd)@),
            final(pd)@ == self.with_list(old(pd)@, texts(final(r)@)),
    {
        match self {
            PlayerPermOp::AddExtra | PlayerPermOp::RemoveExtra => &mut pd.extra_permissions,
            PlayerPermOp::Deny | PlayerPermOp::Undeny => &mut pd.denied_permissions,
        }
    }

    /// Whether the operation adds to its list rather than takes from it.
    pub fn is_add(self) -> (r: bool)
        ensures
            r == self.adds(),
    {
        match self {
            PlayerPermOp::AddExtra | PlayerPermOp::Deny => true,
            PlayerPermOp::RemoveExtra | PlayerPermOp::Undeny => false,
        }
    }

    /// How the operation is named when it was carried out.
    pub fn action_past(self) -> (r: &'static str)
        ensures
            r@ == self.action_text(),
    {
        match self {
            PlayerPermOp::AddExtra => "Added permission",
            PlayerPermOp::RemoveExtra => "Removed permission",
            PlayerPermOp::Deny => "Denied permission",
            PlayerPermOp::Undeny => "Removed denial of",
        }
    }

    /// What is said of the player where the operation had nothing to do.
    pub fn already_msg(self) -> (r: &'static str)
        ensures
            r@ == self.already_text(),
    {
        match self {
            PlayerPermOp::AddExtra => "already has extra permission",
            PlayerPermOp::Deny => "already has denied",
            PlayerPermOp::RemoveExtra => "does not have extra permission",
            PlayerPermOp::Undeny => "does not have denied",
        }
    }
}

/// A player that a command is aimed at.
#[derive(Debug, Clone, PartialEq, Eq)]
pub struct Target {
    /// The number of the player's identifier.
    pub id: u128,
    /// The player's display name.
    pub name: String,
}

/// What a `Target` holds.
pub struct TargetView {
    pub id: u128,
    pub name: Text,
}

impl View for Target {
    type V = TargetView;

    open spec fn view(&self) -> TargetView {
        TargetView { id: self.id, name: self.name@ }
    }
}

/// What a list of targets holds.
pub open spec fn targets_view(targets: Seq<Target>) -> Seq<TargetView> {
    Seq::new(targets.len(), |i: int| targets[i]@)
}

/// The record of a player as a command finds it: the one that the store
/// has, or a fresh one, with the display name of the target.
pub open spec fn seen_player(players: Players, target: TargetView) -> PlayerView {
    PlayerView {
        username: target.name,
        ..(if players.contains_key(target.id) {
            players[target.id]
        } else {
            fresh_player(target.name)
        })
    }
}

/// The players after `target` was put into `group`.
pub open spec fn set_group_one(players: Players, target: TargetView, group: Text) -> Players {
    players.insert(target.id, PlayerView { group, ..seen_player(players, target) })
}

/// The players after each of `targets` in turn was put into `group`.
pub open spec fn set_group_all(players: Players, targets: Seq<TargetView>, group: Text) -> Players
    decreases targets.len(),
{
    if targets.len() == 0 {
        players
    } else {
        set_group_one(set_group_all(players, targets.drop_last(), group), targets.last(), group)
    }
}

/// One message for each of `targets`, in order.
pub open spec fn set_group_replies(targets: Seq<TargetView>, group: Text) -> Seq<StepView> {
    Seq::new(targets.len(), |i: int| StepView::Reply(group_set_text(targets[i].name, group)))
}

/// The players after the command that puts `targets` into `group`.
pub open spec fn players_after_set_group(
    groups: Groups,
    players: Players,
    targets: Seq<TargetView>,
    group: Text,
) -> Players {
    if groups.contains_key(group) {
        set_group_all(players, targets, group)
    } else {
        players
    }
}

/// The outcome of the command that puts `targets` into `group`: refused
/// where there is no such group; else a message for each target, and then
/// the store is written.
pub open spec fn set_group_outcome(groups: Groups, targets: Seq<TargetView>, group: Text) -> OutcomeView {
    if groups.contains_key(group) {
        OutcomeView {
            steps: set_group_replies(targets, group).push(StepView::Persist),
            status: 1,
        }
    } else {
        refused(group_not_found_text(group))
    }
}

/// The players after `op` on `permission` for `target`.
pub open spec fn player_perm_one(
    players: Players,
    op: PlayerPermOp,
    target: TargetView,
    permission: Text,
) -> Players {
    let seen = seen_player(players, target);
    players.insert(
        target.id,
        op.with_list(seen, op.list_after(op.list_of(seen), permission)),
    )
}

/// What is said of `op` on `permission` for `target`: that it was carried
/// out, or that it had nothing to do.
pub open spec fn player_perm_reply(
    players: Players,
    op: PlayerPermOp,
    target: TargetView,
    permission: Text,
) -> Text {
    let has = op.list_of(seen_player(players, target)).contains(permission);
    if op.adds() != has {
        player_changed_text(op.action_text(), permission, target.name)
    } else {
        player_unchanged_text(target.name, op.already_text(), permission)
    }
}

/// The players after `op` on `permission` for each of `targets` in turn.
pub open spec fn player_perm_all(
    players: Players,
    op: PlayerPermOp,
    targets: Seq<TargetView>,
    permission: Text,
) -> Players
    decreases targets.len(),
{
    if targets.len() == 0 {
        players
    } else {
        player_perm_one(
            player_perm_all(players, op, targets.drop_last(), permission),
            op,
            targets.last(),
            permission,
        )
    }
}

/// One message for each of `targets`, in order, each on the players as the
/// targets before it left them.
pub open spec fn player_perm_replies(
    players: Players,
    op: PlayerPermOp,
    targets: Seq<TargetView>,
    permission: Text,
) -> Seq<StepView> {
    Seq::new(
        targets.len(),
        |i: int|
            StepView::Reply(
                player_perm_reply(
                    player_perm_all(players, op, targets.take(i), permission),
                    op,
                    targets[i],
                    permission,
                ),
            ),
    )
}

/// What is shown of the group `name`: its own permissions and its parents
/// as they are listed, and all that it grants in the order of texts.
pub open spec fn group_info_text(groups: Groups, name: Text) -> Text {
    group_report_text(
        name,
        list_text(groups[name].permissions),
        list_text(groups[name].inheritance),
        list_text(sorted_set(effective_permissions(groups, name))),
    )
}

/// The outcome of the command that shows the group `name`.
pub open spec fn group_info_outcome(groups: Groups, name: Text) -> OutcomeView {
    if groups.contains_key(name) {
        answered(group_info_text(groups, name))
    } else {
        refused(group_not_found_text(name))
    }
}

/// What is shown of the groups: how many there are, and their names in the
/// order of texts.
pub open spec fn group_list_text(groups: Groups) -> Text {
    group_listing_text(decimal_text(groups.dom().len()), joined(sorted_set(groups.dom()), ", "@))
}

/// All that the player is granted: by the group and personally.
pub open spec fn granted_nodes(groups: Groups, player: PlayerView) -> Set<Text> {
    effective_permissions(groups, player.group).union(player.extra_permissions.to_set())
}

/// What is shown of the player `target`.
pub open spec fn player_info_text(groups: Groups, players: Players, target: TargetView) -> Text {
    if players.contains_key(target.id) {
        let player = players[target.id];
        player_report_text(
            target.name,
            uuid_text(target.id),
            player.group,
            list_text(player.extra_permissions),
            list_text(player.denied_permissions),
            list_text(sorted_set(granted_nodes(groups, player))),
        )
    } else {
        player_unknown_text(target.name, uuid_text(target.id))
    }
}

/// One message for each of `targets`, in order.
pub open spec fn player_info_replies(groups: Groups, players: Players, targets: Seq<TargetView>) -> Seq<
    StepView,
> {
    Seq::new(
        targets.len(),
        |i: int| StepView::Reply(player_info_text(groups, players, targets[i])),
    )
}

/// The outcome of reading the documents again.
pub open spec fn reload_outcome(loaded: Result<PermissionStore, String>) -> OutcomeView {
    match loaded {
        Ok(_) => answered(reloaded_text()),
        Err(reason) => refused(reload_failed_text(reason@)),
    }
}

/// The outcome of writing the documents on command.
pub open spec fn save_outcome(written: Result<(), String>) -> OutcomeView {
    match written {
        Ok(_) => answered(saved_text()),
        Err(reason) => refused(save_failed_text(reason@)),
    }
}

impl PermissionStore {
    /// The command to put players into a group: refused where there is no
    /// such group.  Each player gets a record if the store had none.
    pub fn set_player_group(&mut self, targets: &Vec<Target>, group: &str) -> (r: Outcome)
        ensures
            final(self).players() == players_after_set_group(
                old(self).groups(),
                old(self).players(),
                targets_view(targets@),
                group@,
            ),
            final(self).groups() == old(self).groups(),
            final(self).data_folder == old(self).data_folder,
            old(self).has_default() ==> final(self).has_default(),
            r@ == set_group_outcome(old(self).groups(), targets_view(targets@), group@),
    {
        if !self.groups.contains_key(group) {
            return Outcome::refuse(group_not_found(group));
        }
        let ghost all = targets_view(targets@);
        let ghost start = self.players();
        let mut steps: Vec<Step> = Vec::new();
        let mut i: usize = 0;
        while i < targets.len()
            invariant
                i <= targets.len(),
                all == targets_view(targets@),
                self.groups() == old(self).groups(),
                self.data_folder == old(self).data_folder,
                self.players() == set_group_all(start, all.take(i as int), group@),
                steps_view(steps@) == set_group_replies(all, group@).take(i as int),
            decreases targets.len() - i,
        {
            proof {
                assert(all.take(i + 1).drop_last() =~= all.take(i as int));
                assert(all.take(i + 1).last() == targets[i as int]@);
            }
            let target = &targets[i];
            let pd = self.get_or_create_player(target.id, target.name.as_str());
            pd.group = String::from_str(group);
            let reply = Step::Reply(group_set(target.name.as_str(), group));
            proof {
                let wanted = set_group_replies(all, group@);
                assert(all[i as int] == targets[i as int]@);
                assert(reply@ == wanted[i as int]);
                assert(wanted.take(i + 1) =~= wanted.take(i as int).push(wanted[i as int]));
                assert(steps_view(steps@.push(reply)) =~= steps_view(steps@).push(reply@));
            }
            steps.push(reply);
            i = i + 1;
        }
        proof {
            assert(all.take(all.len() as int) =~= all);
            assert(set_group_replies(all, group@).take(all.len() as int) =~= set_group_replies(
                all,
                group@,
            ));
            assert(steps_view(steps@.push(Step::Persist)) =~= steps_view(steps@).push(
                StepView::Persist,
            ));
        }
        steps.push(Step::Persist);
        Outcome { steps, status: 1 }
    }

    /// The command to change the personal permissions of players: each in
    /// turn gets a record if the store had none, then the grant or denial
    /// is added or taken away if it can be, and a message says which; then
    /// the store is written.
    pub fn change_player_permission(
        &mut self,
        op: PlayerPermOp,
        targets: &Vec<Target>,
        permission: &str,
    ) -> (r: Outcome)
        ensures
            final(self).players() == player_perm_all(
                old(self).players(),
                op,
                targets_view(targets@),
                permission@,
            ),
            final(self).groups() == old(self).groups(),
            final(self).data_folder == old(self).data_folder,
            old(self).has_default() ==> final(self).has_default(),
            r@.steps == player_perm_replies(
                old(self).players(),
                op,
                targets_view(targets@),
                permission@,
            ).push(StepView::Persist),
            r@.status == 1,
    {
        let ghost all = targets_view(targets@);
        let ghost start = self.players();
        let ghost replies = player_perm_replies(start, op, all, permission@);
        let mut steps: Vec<Step> = Vec::new();
        let mut i: usize = 0;
        while i < targets.len()
            invariant
                i <= targets.len(),
                all == targets_view(targets@),
                replies == player_perm_replies(start, op, all, permission@),
                self.groups() == old(self).groups(),
                self.data_folder == old(self).data_folder,
                self.players() == player_perm_all(start, op, all.take(i as int), permission@),
                steps_view(steps@) == replies.take(i as int),
            decreases targets.len() - i,
        {
            proof {
                assert(all.take(i + 1).drop_last() =~= all.take(i as int));
                assert(all.take(i + 1).last() == targets[i as int]@);
            }
            let target = &targets[i];
            let pd = self.get_or_create_player(target.id, target.name.as_str());
            let list = op.target_list(pd);
            let done = if op.is_add() {
                add_to_list(list, permission)
            } else {
                remove_from_list(list, permission)
            };
            let message = if done {
                player_changed(op.action_past(), permission, target.name.as_str())
            } else {
                player_unchanged(target.name.as_str(), op.already_msg(), permission)
            };
            let reply = Step::Reply(message);
            proof {
                assert(all[i as int] == targets[i as int]@);
                assert(reply@ == replies[i as int]);
                assert(replies.take(i + 1) =~= replies.take(i as int).push(replies[i as int]));
                assert(steps_view(steps@.push(reply)) =~= steps_view(steps@).push(reply@));
            }
            steps.push(reply);
            i = i + 1;
        }
        proof {
            assert(all.take(all.len() as int) =~= all);
            assert(replies.take(all.len() as int) =~= replies);
            assert(steps_view(steps@.push(Step::Persist)) =~= steps_view(steps@).push(
                StepView::Persist,
            ));
        }
        steps.push(Step::Persist);
        Outcome { steps, status: 1 }
    }

    /// The command that shows a group: refused where there is no such
    /// group.
    pub fn group_info(&self, name: &str) -> (r: Outcome)
        ensures
            r@ == group_info_outcome(self.groups(), name@),
    {
        match self.groups.get(name) {
            None => Outcome::refuse(group_not_found(name)),
            Some(group) => {
                let perms = format_list(&group.permissions);
                let inheritance = format_list(&group.inheritance);
                let granted = self.resolve_group_permissions(name);
                proof {
                    lemma_sorted_set(texts(granted@));
                }
                let effective = format_sorted_list(&granted);
                Outcome::answer(
                    group_report(name, perms.as_str(), inheritance.as_str(), effective.as_str()),
                )
            },
        }
    }

    /// The command that shows the names of the groups.
    pub fn group_list(&self) -> (r: Outcome)
        ensures
            r@ == answered(group_list_text(self.groups())),
    {
        let names = self.groups.names();
        let sorted = sorted_copy(&names);
        proof {
            lemma_sorted_set(texts(names@));
            texts(names@).unique_seq_to_set();
        }
        let count = decimal(names.len());
        let listed = join(&sorted, ", ");
        Outcome::answer(group_listing(count.as_str(), listed.as_str()))
    }

    /// What is shown of one player.
    fn describe_player(&self, target: &Target) -> (r: String)
        ensures
            r@ == player_info_text(self.groups(), self.players(), target@),
    {
        let id = format_uuid(target.id);
        match self.players.get(&target.id) {
            None => player_unknown(target.name.as_str(), id.as_str()),
            Some(pd) => {
                let extras = format_list(&pd.extra_permissions);
                let denied = format_list(&pd.denied_permissions);
                let mut granted = self.resolve_group_permissions(pd.group.as_str());
                let ghost by_group = texts(granted@).to_set();
                let mut k: usize = 0;
                while k < pd.extra_permissions.len()
                    invariant
                        k <= pd.extra_permissions.len(),
                        texts(granted@).no_duplicates(),
                        texts(granted@).to_set() == by_group.union(
                            texts(pd.extra_permissions@).take(k as int).to_set(),
                        ),
                    decreases pd.extra_permissions.len() - k,
                {
                    push_unique(&mut granted, &pd.extra_permissions[k]);
                    proof {
                        let own = texts(pd.extra_permissions@);
                        assert(own.take(k + 1) =~= own.take(k as int).push(own[k as int]));
                        own.take(k as int).lemma_push_to_set_commute(own[k as int]);
                        assert(texts(granted@).to_set() =~= by_group.union(
                            own.take(k + 1).to_set(),
                        ));
                    }
                    k = k + 1;
                }
                proof {
                    let own = texts(pd.extra_permissions@);
                    assert(own.take(own.len() as int) =~= own);
                    lemma_sorted_set(texts(granted@));
                }
                let effective = format_sorted_list(&granted);
                player_report(
                    target.name.as_str(),
                    id.as_str(),
                    pd.group.as_str(),
                    extras.as_str(),
                    denied.as_str(),
                    effective.as_str(),
                )
            },
        }
    }

    /// The command that shows players: one message for each.
    pub fn player_info(&self, targets: &Vec<Target>) -> (r: Outcome)
        ensures
            r@.steps == player_info_replies(
                self.groups(),
                self.players(),
                targets_view(targets@),
            ),
            r@.status == 1,
    {
        let ghost replies = player_info_replies(
            self.groups(),
            self.players(),
            targets_view(targets@),
        );
        let mut steps: Vec<Step> = Vec::new();
        let mut i: usize = 0;
        while i < targets.len()
            invariant
                i <= targets.len(),
                replies == player_info_replies(
                    self.groups(),
                    self.players(),
                    targets_view(targets@),
                ),
                steps_view(steps@) == replies.take(i as int),
            decreases targets.len() - i,
        {
            let reply = Step::Reply(self.describe_player(&targets[i]));
            proof {
                assert(targets_view(targets@)[i as int] == targets[i as int]@);
                assert(reply@ == replies[i as int]);
                assert(replies.take(i + 1) =~= replies.take(i as int).push(replies[i as int]));
                assert(steps_view(steps@.push(reply)) =~= steps_view(steps@).push(reply@));
            }
            steps.push(reply);
            i = i + 1;
        }
        proof {
            assert(replies.take(targets.len() as int) =~= replies);
        }
        Outcome { steps, status: 1 }
    }

    /// The command to read the documents again, once they were read: the
    /// store becomes the one that was read, or stays as it is where the
    /// reading failed.
    pub fn reload(&mut self, loaded: Result<PermissionStore, String>) -> (r: Outcome)
        ensures
            match loaded {
                Ok(store) => *final(self) == store,
                Err(_) => *final(self) == *old(self),
            },
            old(self).has_default() && (loaded matches Ok(store) ==> store.has_default())
                ==> final(self).has_default(),
            r@ == reload_outcome(loaded),
    {
        match loaded {
            Ok(store) => {
                *self = store;
                Outcome::answer(reloaded())
            },
            Err(reason) => Outcome::refuse(reload_failed(reason.as_str())),
        }
    }
}

/// The outcome of the command to write the documents, once it is known
/// whether they were written.
pub fn report_save(written: &Result<(), String>) -> (r: Outcome)
    ensures
        r@ == save_outcome(*written),
{
    match written {
        Ok(_) => Outcome::answer(saved()),
        Err(reason) => Outcome::refuse(save_failed(reason.as_str())),
    }
}

/// A command with what it is given.
#[derive(Debug, Clone, PartialEq, Eq)]
pub enum Command {
    /// Make a group.
    GroupCreate { name: String },
    /// Delete a group.
    GroupDelete { name: String },
    /// Give a group a permission, or take one from it.
    GroupPerm { op: GroupPermOp, group: String, permission: String },
    /// Show a group.
    GroupInfo { name: String },
    /// Show the names of the groups.
    GroupList,
    /// Put players into a group.
    PlayerSetGroup { targets: Vec<Target>, group: String },
    /// Change the personal permissions of players.
    PlayerPerm { op: PlayerPermOp, targets: Vec<Target>, permission: String },
    /// Show players.
    PlayerInfo { targets: Vec<Target> },
}

impl Command {
    /// Whether the command only looks at the store.
    pub open spec fn only_reads(self) -> bool {
        self is GroupInfo || self is GroupList || self is PlayerInfo
    }

    /// Whether the command only looks at the store, so that others may look
    /// at it at the same time.
    pub fn reads_only(&self) -> (r: bool)
        ensures
            r == self.only_reads(),
    {
        match self {
            Command::GroupInfo { .. } | Command::GroupList | Command::PlayerInfo { .. } => true,
            _ => false,
        }
    }
}

/// The groups after `command`.
pub open spec fn groups_after(groups: Groups, command: Command) -> Groups {
    match command {
        Command::GroupCreate { name } => groups_after_create(groups, name@),
        Command::GroupDelete { name } => groups_after_delete(groups, name@),
        Command::GroupPerm { op, group, permission } => groups_after_perm(
            groups,
            op,
            group@,
            permission@,
        ),
        _ => groups,
    }
}

/// The players after `command`.
pub open spec fn players_after(groups: Groups, players: Players, command: Command) -> Players {
    match command {
        Command::PlayerSetGroup { targets, group } => players_after_set_group(
            groups,
            players,
            targets_view(targets@),
            group@,
        ),
        Command::PlayerPerm { op, targets, permission } => player_perm_all(
            players,
            op,
            targets_view(targets@),
            permission@,
        ),
        _ => players,
    }
}

/// The outcome of `command`.
pub open spec fn outcome_of(groups: Groups, players: Players, command: Command) -> OutcomeView {
    match command {
        Command::GroupCreate { name } => create_outcome(groups, name@),
        Command::GroupDelete { name } => delete_outcome(groups, name@),
        Command::GroupPerm { op, group, permission } => perm_outcome(
            groups,
            op,
            group@,
            permission@,
        ),
        Command::GroupInfo { name } => group_info_outcome(groups, name@),
        Command::GroupList => answered(group_list_text(groups)),
        Command::PlayerSetGroup { targets, group } => set_group_outcome(
            groups,
            targets_view(targets@),
            group@,
        ),
        Command::PlayerPerm { op, targets, permission } => OutcomeView {
            steps: player_perm_replies(players, op, targets_view(targets@), permission@).push(
                StepView::Persist,
            ),
            status: 1,
        },
        Command::PlayerInfo { targets } => OutcomeView {
            steps: player_info_replies(groups, players, targets_view(targets@)),
            status: 1,
        },
    }
}

impl PermissionStore {
    /// Answers `command` where it only looks at the store; a command that
    /// changes the store gets no answer here.
    pub fn inspect(&self, command: &Command) -> (r: Option<Outcome>)
        ensures
            match r {
                Some(outcome) => command.only_reads() && outcome@ == outcome_of(
                    self.groups(),
                    self.players(),
                    *command,
                ),
                None => !command.only_reads(),
            },
    {
        match command {
            Command::GroupInfo { name } => Some(self.group_info(name.as_str())),
            Command::GroupList => Some(self.group_list()),
            Command::PlayerInfo { targets } => Some(self.player_info(targets)),
            _ => None,
        }
    }

    /// Carries out `command` on the store.
    pub fn execute(&mut self, command: &Command) -> (r: Outcome)
        ensures
            final(self).groups() == groups_after(old(self).groups(), *command),
            final(self).players() == players_after(
                old(self).groups(),
                old(self).players(),
                *command,
            ),
            final(self).data_folder == old(self).data_folder,
            old(self).has_default() ==> final(self).has_default(),
            r@ == outcome_of(old(self).groups(), old(self).players(), *command),
    {
        match command {
            Command::GroupCreate { name } => self.create_group(name.as_str()),
            Command::GroupDelete { name } => self.delete_group(name.as_str()),
            Command::GroupPerm { op, group, permission } => self.change_group_permission(
                *op,
                group.as_str(),
                permission.as_str(),
            ),
            Command::GroupInfo { name } => self.group_info(name.as_str()),
            Command::GroupList => self.group_list(),
            Command::PlayerSetGroup { targets, group } => self.set_player_group(
                targets,
                group.as_str(),
            ),
            Command::PlayerPerm { op, targets, permission } => self.change_player_permission(
                *op,
                targets,
                permission.as_str(),
            ),
            Command::PlayerInfo { targets } => self.player_info(targets),
        }
    }
}

/// The default group is never deleted: the command to delete it is refused
/// and leaves the groups as they are, whatever the default group holds and
/// whether or not there is one.
pub proof fn law_default_not_deleted(groups: Groups)
    ensures
        groups_after_delete(groups, default_group_name()) == groups,
        delete_outcome(groups, default_group_name()) == refused(cannot_delete_default_text()),
{
}

/// No command takes the default group away.
pub proof fn law_default_group_stays(groups: Groups, command: Command)
    requires
        groups.contains_key(default_group_name()),
    ensures
        groups_after(groups, command).contains_key(default_group_name()),
{
}

/// A command that only looks at the store leaves the groups and the players
/// as they were and has nothing written.
pub proof fn law_reading_changes_nothing(groups: Groups, players: Players, command: Command)
    requires
        command.only_reads(),
    ensures
        groups_after(groups, command) == groups,
        players_after(groups, players, command) == players,
        !outcome_of(groups, players, command).steps.contains(StepView::Persist),
{
    let steps = outcome_of(groups, players, command).steps;
    if steps.contains(StepView::Persist) {
        let i = choose|i: int| 0 <= i < steps.len() && steps[i] == StepView::Persist;
    }
}

/// A command that is refused leaves the groups and the players as they
/// were.
pub proof fn law_refused_changes_nothing(groups: Groups, players: Players, command: Command)
    requires
        outcome_of(groups, players, command).status == 0,
    ensures
        groups_after(groups, command) == groups,
        players_after(groups, players, command) == players,
{
    match command {
        Command::GroupPerm { op, group, permission } => {
            if groups.contains_key(group@) {
                assert(groups.insert(group@, groups[group@]) =~= groups);
            }
        },
        Command::GroupDelete { name } => {
            if name@ != default_group_name() {
                assert(groups.remove(name@) =~= groups);
            }
        },
        _ => {},
    }
}

/// Putting players into a group takes no record away.
proof fn lemma_set_group_keeps(players: Players, targets: Seq<TargetView>, group: Text, id: u128)
    requires
        players.contains_key(id),
    ensures
        set_group_all(players, targets, group).contains_key(id),
    decreases targets.len(),
{
    if targets.len() > 0 {
        lemma_set_group_keeps(players, targets.drop_last(), group, id);
    }
}

/// Changing the personal permissions of players takes no record away.
proof fn lemma_player_perm_keeps(
    players: Players,
    op: PlayerPermOp,
    targets: Seq<TargetView>,
    permission: Text,
    id: u128,
)
    requires
        players.contains_key(id),
    ensures
        player_perm_all(players, op, targets, permission).contains_key(id),
    decreases targets.len(),
{
    if targets.len() > 0 {
        lemma_player_perm_keeps(players, op, targets.drop_last(), permission, id);
    }
}

/// No command takes the record of a player away.
pub proof fn law_players_stay(groups: Groups, players: Players, command: Command, id: u128)
    requires
        players.contains_key(id),
    ensures
        players_after(groups, players, command).contains_key(id),
{
    match command {
        Command::PlayerSetGroup { targets, group } => {
            lemma_set_group_keeps(players, targets_view(targets@), group@, id);
        },
        Command::PlayerPerm { op, targets, permission } => {
            lemma_player_perm_keeps(players, op, targets_view(targets@), permission@, id);
        },
        _ => {},
    }
}

} // verus!
