//! The messages with which the store answers commands.

use crate::text::{chars_of, glue, glued, strs, Text};
use vstd::prelude::*;
use vstd::string::{StrSliceExecFns, StringExecFns};

verus! {

/// The group to be made is there already.
pub open spec fn group_exists_text(name: Text) -> Text {
    glue(seq!["Group '"@, name, "' already exists"@])
}

/// The group to be made is there already.
pub fn group_exists(name: &str) -> (r: String)
    ensures
        r@ == group_exists_text(name@),
{
    let parts = vec!["Group '", name, "' already exists"];
    proof {
        assert(strs(parts@) =~= seq!["Group '"@, name@, "' already exists"@]);
    }
    glued(&parts)
}

/// A group was made.
pub open spec fn group_created_text(name: Text) -> Text {
    glue(seq!["Created group '"@, name, "'"@])
}

/// A group was made.
pub fn group_created(name: &str) -> (r: String)
    ensures
        r@ == group_created_text(name@),
{
    let parts = vec!["Created group '", name, "'"];
    proof {
        assert(strs(parts@) =~= seq!["Created group '"@, name@, "'"@]);
    }
    glued(&parts)
}

/// There is no group of that name.
pub open spec fn group_not_found_text(name: Text) -> Text {
    glue(seq!["Group '"@, name, "' not found"@])
}

/// There is no group of that name.
pub fn group_not_found(name: &str) -> (r: String)
    ensures
        r@ == group_not_found_text(name@),
{
    let parts = vec!["Group '", name, "' not found"];
    proof {
        assert(strs(parts@) =~= seq!["Group '"@, name@, "' not found"@]);
    }
    glued(&parts)
}

/// A group was deleted.
pub open spec fn group_deleted_text(name: Text) -> Text {
    glue(seq!["Deleted group '"@, name, "'"@])
}

/// A group was deleted.
pub fn group_deleted(name: &str) -> (r: String)
    ensures
        r@ == group_deleted_text(name@),
{
    let parts = vec!["Deleted group '", name, "'"];
    proof {
        assert(strs(parts@) =~= seq!["Deleted group '"@, name@, "'"@]);
    }
    glued(&parts)
}

/// The group has the permission already.
pub open spec fn group_has_permission_text(group: Text, permission: Text) -> Text {
    glue(seq!["Group '"@, group, "' already has permission '"@, permission, "'"@])
}

/// The group has the permission already.
pub fn group_has_permission(group: &str, permission: &str) -> (r: String)
    ensures
        r@ == group_has_permission_text(group@, permission@),
{
    let parts = vec!["Group '", group, "' already has permission '", permission, "'"];
    proof {
        assert(strs(parts@) =~= seq!["Group '"@, group@, "' already has permission '"@, permission@, "'"@]);
    }
    glued(&parts)
}

/// The group does not have the permission.
pub open spec fn group_lacks_permission_text(group: Text, permission: Text) -> Text {
    glue(seq!["Group '"@, group, "' does not have permission '"@, permission, "'"@])
}

/// The group does not have the permission.
pub fn group_lacks_permission(group: &str, permission: &str) -> (r: String)
    ensures
        r@ == group_lacks_permission_text(group@, permission@),
{
    let parts = vec!["Group '", group, "' does not have permission '", permission, "'"];
    proof {
        assert(strs(parts@) =~= seq!["Group '"@, group@, "' does not have permission '"@, permission@, "'"@]);
    }
    glued(&parts)
}

/// A permission was given to a group.
pub open spec fn permission_added_text(permission: Text, group: Text) -> Text {
    glue(seq!["Added permission '"@, permission, "' to group '"@, group, "'"@])
}

/// A permission was given to a group.
pub fn permission_added(permission: &str, group: &str) -> (r: String)
    ensures
        r@ == permission_added_text(permission@, group@),
{
    let parts = vec!["Added permission '", permission, "' to group '", group, "'"];
    proof {
        assert(strs(parts@) =~= seq!["Added permission '"@, permission@, "' to group '"@, group@, "'"@]);
    }
    glued(&parts)
}

/// A permission was taken from a group.
pub open spec fn permission_removed_text(permission: Text, group: Text) -> Text {
    glue(seq!["Removed permission '"@, permission, "' from group '"@, group, "'"@])
}

/// A permission was taken from a group.
pub fn permission_removed(permission: &str, group: &str) -> (r: String)
    ensures
        r@ == permission_removed_text(permission@, group@),
{
    let parts = vec!["Removed permission '", permission, "' from group '", group, "'"];
    proof {
        assert(strs(parts@) =~= seq!["Removed permission '"@, permission@, "' from group '"@, group@, "'"@]);
    }
    glued(&parts)
}

/// What a group holds: its own permissions, its parents, and all that it grants.
pub open spec fn group_report_text(name: Text, permissions: Text, inheritance: Text, effective: Text) -> Text {
    glue(seq!["Group '"@, name, "':\n  Permissions: "@, permissions, "\n  Inheritance: "@, inheritance, "\n  Effective: "@, effective])
}

/// What a group holds: its own permissions, its parents, and all that it grants.
pub fn group_report(name: &str, permissions: &str, inheritance: &str, effective: &str) -> (r: String)
    ensures
        r@ == group_report_text(name@, permissions@, inheritance@, effective@),
{
    let parts = vec!["Group '", name, "':\n  Permissions: ", permissions, "\n  Inheritance: ", inheritance, "\n  Effective: ", effective];
    proof {
        assert(strs(parts@) =~= seq!["Group '"@, name@, "':\n  Permissions: "@, permissions@, "\n  Inheritance: "@, inheritance@, "\n  Effective: "@, effective@]);
    }
    glued(&parts)
}

/// How many groups there are, and their names.
pub open spec fn group_listing_text(count: Text, names: Text) -> Text {
    glue(seq!["Groups ("@, count, "): "@, names])
}

/// How many groups there are, and their names.
pub fn group_listing(count: &str, names: &str) -> (r: String)
    ensures
        r@ == group_listing_text(count@, names@),
{
    let parts = vec!["Groups (", count, "): ", names];
    proof {
        assert(strs(parts@) =~= seq!["Groups ("@, count@, "): "@, names@]);
    }
    glued(&parts)
}

/// A player was put into a group.
pub open spec fn group_set_text(player: Text, group: Text) -> Text {
    glue(seq!["Set "@, player, "'s group to '"@, group, "'"@])
}

/// A player was put into a group.
pub fn group_set(player: &str, group: &str) -> (r: String)
    ensures
        r@ == group_set_text(player@, group@),
{
    let parts = vec!["Set ", player, "'s group to '", group, "'"];
    proof {
        assert(strs(parts@) =~= seq!["Set "@, player@, "'s group to '"@, group@, "'"@]);
    }
    glued(&parts)
}

/// A change that a player's lists did not need: the grant or denial was there already, or was not there to be taken away.
pub open spec fn player_unchanged_text(player: Text, state: Text, permission: Text) -> Text {
    glue(seq![player, " "@, state, " '"@, permission, "'"@])
}

/// A change that a player's lists did not need: the grant or denial was there already, or was not there to be taken away.
pub fn player_unchanged(player: &str, state: &str, permission: &str) -> (r: String)
    ensures
        r@ == player_unchanged_text(player@, state@, permission@),
{
    let parts = vec![player, " ", state, " '", permission, "'"];
    proof {
        assert(strs(parts@) =~= seq![player@, " "@, state@, " '"@, permission@, "'"@]);
    }
    glued(&parts)
}

/// A change that was made to a player's lists.
pub open spec fn player_changed_text(action: Text, permission: Text, player: Text) -> Text {
    glue(seq![action, " '"@, permission, "' for "@, player])
}

/// A change that was made to a player's lists.
pub fn player_changed(action: &str, permission: &str, player: &str) -> (r: String)
    ensures
        r@ == player_changed_text(action@, permission@, player@),
{
    let parts = vec![action, " '", permission, "' for ", player];
    proof {
        assert(strs(parts@) =~= seq![action@, " '"@, permission@, "' for "@, player@]);
    }
    glued(&parts)
}

/// The store has no record of the player.
pub open spec fn player_unknown_text(player: Text, id: Text) -> Text {
    glue(seq!["Player '"@, player, "' ("@, id, "): group=default (no custom data)"@])
}

/// The store has no record of the player.
pub fn player_unknown(player: &str, id: &str) -> (r: String)
    ensures
        r@ == player_unknown_text(player@, id@),
{
    let parts = vec!["Player '", player, "' (", id, "): group=default (no custom data)"];
    proof {
        assert(strs(parts@) =~= seq!["Player '"@, player@, "' ("@, id@, "): group=default (no custom data)"@]);
    }
    glued(&parts)
}

/// What the store holds of a player, and all that the player is granted.
pub open spec fn player_report_text(player: Text, id: Text, group: Text, extra: Text, denied: Text, effective: Text) -> Text {
    glue(seq!["Player '"@, player, "' ("@, id, "):\n  Group: "@, group, "\n  Extra: "@, extra, "\n  Denied: "@, denied, "\n  Effective: "@, effective])
}

/// What the store holds of a player, and all that the player is granted.
pub fn player_report(player: &str, id: &str, group: &str, extra: &str, denied: &str, effective: &str) -> (r: String)
    ensures
        r@ == player_report_text(player@, id@, group@, extra@, denied@, effective@),
{
    let parts = vec!["Player '", player, "' (", id, "):\n  Group: ", group, "\n  Extra: ", extra, "\n  Denied: ", denied, "\n  Effective: ", effective];
    proof {
        assert(strs(parts@) =~= seq!["Player '"@, player@, "' ("@, id@, "):\n  Group: "@, group@, "\n  Extra: "@, extra@, "\n  Denied: "@, denied@, "\n  Effective: "@, effective@]);
    }
    glued(&parts)
}

/// The documents could not be read again.
pub open spec fn reload_failed_text(reason: Text) -> Text {
    glue(seq!["Reload failed: "@, reason])
}

/// The documents could not be read again.
pub fn reload_failed(reason: &str) -> (r: String)
    ensures
        r@ == reload_failed_text(reason@),
{
    let parts = vec!["Reload failed: ", reason];
    proof {
        assert(strs(parts@) =~= seq!["Reload failed: "@, reason@]);
    }
    glued(&parts)
}

/// The documents could not be written.
pub open spec fn save_failed_text(reason: Text) -> Text {
    glue(seq!["Save failed: "@, reason])
}

/// The documents could not be written.
pub fn save_failed(reason: &str) -> (r: String)
    ensures
        r@ == save_failed_text(reason@),
{
    let parts = vec!["Save failed: ", reason];
    proof {
        assert(strs(parts@) =~= seq!["Save failed: "@, reason@]);
    }
    glued(&parts)
}

/// A chat message behind the prefix and the name of the player who wrote it.
pub open spec fn chat_line_text(prefix: Text, player: Text, message: Text) -> Text {
    glue(seq![prefix, " <"@, player, "> "@, message])
}

/// A chat message behind the prefix and the name of the player who wrote it.
pub fn chat_line(prefix: &str, player: &str, message: &str) -> (r: String)
    ensures
        r@ == chat_line_text(prefix@, player@, message@),
{
    let parts = vec![prefix, " <", player, "> ", message];
    proof {
        assert(strs(parts@) =~= seq![prefix@, " <"@, player@, "> "@, message@]);
    }
    glued(&parts)
}

/// The default group is never deleted.
pub open spec fn cannot_delete_default_text() -> Text {
    "Cannot delete the 'default' group"@
}

/// The default group is never deleted.
pub fn cannot_delete_default() -> (r: String)
    ensures
        r@ == cannot_delete_default_text(),
{
    String::from_str("Cannot delete the 'default' group")
}

/// The documents were read again.
pub open spec fn reloaded_text() -> Text {
    "Seed configuration reloaded"@
}

/// The documents were read again.
pub fn reloaded() -> (r: String)
    ensures
        r@ == reloaded_text(),
{
    String::from_str("Seed configuration reloaded")
}

/// The documents were written.
pub open spec fn saved_text() -> Text {
    "Seed configuration saved"@
}

/// The documents were written.
pub fn saved() -> (r: String)
    ensures
        r@ == saved_text(),
{
    String::from_str("Seed configuration saved")
}

/// The text with every `&` turned into the sign that starts a colour code.
pub open spec fn colorized(text: Text) -> Text {
    Seq::new(text.len(), |i: int| if text[i] == '&' { '§' } else { text[i] })
}

/// `text` with every `&` turned into the sign that starts a colour code.
pub fn colorize(text: &str) -> (r: String)
    ensures
        r@ == colorized(text@),
{
    let chars = chars_of(text);
    let mut out = String::new();
    let mut i: usize = 0;
    while i < chars.len()
        invariant
            i <= chars.len(),
            chars@ == text@,
            out@ == colorized(text@).take(i as int),
        decreases chars.len() - i,
    {
        proof {
            reveal_strlit("§");
            assert(colorized(text@).take(i + 1) =~= colorized(text@).take(i as int).push(
                colorized(text@)[i as int],
            ));
        }
        if chars[i] == '&' {
            proof {
                assert("§"@ =~= seq!['§']);
            }
            out.append("§");
        } else {
            let same = text.substring_char(i, i + 1);
            proof {
                assert(same@ =~= seq![text@[i as int]]);
            }
            out.append(same);
        }
        i = i + 1;
    }
    proof {
        assert(colorized(text@).take(chars.len() as int) =~= colorized(text@));
    }
    out
}

/// The line that is shown for a chat message of a player with a prefix: the
/// prefix with its colour codes, the name, the message.
pub open spec fn chat_text(prefix: Text, player: Text, message: Text) -> Text {
    chat_line_text(colorized(prefix), player, message)
}

/// The line that is shown for a chat message of a player with a prefix.
pub fn format_chat(prefix: &str, player: &str, message: &str) -> (r: String)
    ensures
        r@ == chat_text(prefix@, player@, message@),
{
    let shown = colorize(prefix);
    chat_line(shown.as_str(), player, message)
}

} // verus!
