//! What the answers of the store are: the permissions and the prefix that a
//! group has through inheritance, and the verdict on a player's permission.

use crate::graph::{lemma_visit_reaches, reachable, reaches_avoiding, visit, Groups};
use crate::model::{default_group_name, wildcard, PlayerView};
use crate::text::Text;
use vstd::prelude::*;

verus! {

/// The players of a store, by identifier.
pub type Players = Map<u128, PlayerView>;

/// The nodes granted by the groups named in `order`.
pub open spec fn permissions_along(groups: Groups, order: Seq<Text>) -> Set<Text> {
    Set::new(
        |node: Text|
            exists|i: int|
                0 <= i < order.len() && groups.contains_key(#[trigger] order[i])
                    && groups[order[i]].permissions.contains(node),
    )
}

/// The nodes that the group `start` grants itself or inherits: those of every
/// group that can be reached from it.
pub open spec fn effective_permissions(groups: Groups, start: Text) -> Set<Text> {
    Set::new(
        |node: Text|
            exists|g: Text|
                #[trigger] reachable(groups, start, g) && groups.contains_key(g)
                    && groups[g].permissions.contains(node),
    )
}

/// The prefix of the first group named in `order` that has one.
pub open spec fn first_prefix(groups: Groups, order: Seq<Text>) -> Option<Text>
    decreases order.len(),
{
    if order.len() == 0 {
        None
    } else if groups.contains_key(order[0]) && groups[order[0]].prefix is Some {
        groups[order[0]].prefix
    } else {
        first_prefix(groups, order.drop_first())
    }
}

/// The prefix of the group `start`: its own, or else that of the first group
/// with a prefix that a depth-first search through its parents, in the order
/// in which they are listed, comes upon.
pub open spec fn group_prefix(groups: Groups, start: Text) -> Option<Text> {
    first_prefix(groups, visit(groups, start, Set::empty()))
}

/// The group whose permissions and prefix count for the player `id`.
pub open spec fn group_of(players: Players, id: u128) -> Text {
    if players.contains_key(id) {
        players[id].group
    } else {
        default_group_name()
    }
}

/// The player `id` has a personal denial of exactly `node`.
pub open spec fn denied(players: Players, id: u128, node: Text) -> bool {
    players.contains_key(id) && players[id].denied_permissions.contains(node)
}

/// The player `id` has a personal grant of `node` or of the wildcard.
pub open spec fn granted_personally(players: Players, id: u128, node: Text) -> bool {
    players.contains_key(id) && (players[id].extra_permissions.contains(node)
        || players[id].extra_permissions.contains(wildcard()))
}

/// The group of the player `id` grants `node` or the wildcard, itself or by
/// inheritance.
pub open spec fn granted_by_group(groups: Groups, players: Players, id: u128, node: Text) -> bool {
    let granted = effective_permissions(groups, group_of(players, id));
    granted.contains(node) || granted.contains(wildcard())
}

/// The verdict on `node` for the player `id`: `Some(false)` is a denial,
/// `Some(true)` a grant, `None` no opinion.  A denial goes before a personal
/// grant, and that before a grant by the group.
pub open spec fn permission_verdict(groups: Groups, players: Players, id: u128, node: Text) -> Option<
    bool,
> {
    if denied(players, id, node) {
        Some(false)
    } else if granted_personally(players, id, node) {
        Some(true)
    } else if granted_by_group(groups, players, id, node) {
        Some(true)
    } else {
        None
    }
}

/// The prefix shown for the player `id`: the player's own, or else that of the
/// player's group.
pub open spec fn player_prefix(groups: Groups, players: Players, id: u128) -> Option<Text> {
    if players.contains_key(id) && players[id].prefix is Some {
        players[id].prefix
    } else {
        group_prefix(groups, group_of(players, id))
    }
}

/// The first prefix along two orders is that along the first, or else that
/// along the second.
pub proof fn lemma_first_prefix_add(groups: Groups, a: Seq<Text>, b: Seq<Text>)
    ensures
        first_prefix(groups, a + b) == (if first_prefix(groups, a) is Some {
            first_prefix(groups, a)
        } else {
            first_prefix(groups, b)
        }),
    decreases a.len(),
{
    if a.len() == 0 {
        assert(a + b =~= b);
    } else {
        assert((a + b)[0] == a[0]);
        assert((a + b).drop_first() =~= a.drop_first() + b);
        lemma_first_prefix_add(groups, a.drop_first(), b);
    }
}

/// The first prefix along an order is the prefix of a group named in it, and
/// there is none only if no group named in it has one.
pub proof fn lemma_first_prefix_found(groups: Groups, order: Seq<Text>)
    ensures
        match first_prefix(groups, order) {
            Some(p) => exists|i: int|
                0 <= i < order.len() && groups.contains_key(#[trigger] order[i])
                    && groups[order[i]].prefix == Some(p),
            None => forall|i: int|
                0 <= i < order.len() && groups.contains_key(#[trigger] order[i])
                    ==> groups[order[i]].prefix is None,
        },
    decreases order.len(),
{
    if order.len() == 0 {
    } else if groups.contains_key(order[0]) && groups[order[0]].prefix is Some {
    } else {
        let rest = order.drop_first();
        lemma_first_prefix_found(groups, rest);
        match first_prefix(groups, rest) {
            Some(p) => {
                let i = choose|i: int|
                    0 <= i < rest.len() && groups.contains_key(#[trigger] rest[i])
                        && groups[rest[i]].prefix == Some(p);
                assert(order[i + 1] == rest[i]);
            },
            None => {
                assert forall|i: int|
                    0 <= i < order.len() && groups.contains_key(
                        #[trigger] order[i],
                    ) implies groups[order[i]].prefix is None by {
                    if i > 0 {
                        assert(order[i] == rest[i - 1]);
                    }
                }
            },
        }
    }
}

/// The groups that the search from `start` enters grant together what `start`
/// grants itself or inherits.
pub proof fn lemma_permissions_along_search(groups: Groups, start: Text)
    requires
        groups.dom().finite(),
    ensures
        permissions_along(groups, visit(groups, start, Set::empty())) == effective_permissions(
            groups,
            start,
        ),
{
    let order = visit(groups, start, Set::empty());
    lemma_visit_reaches(groups, start, Set::empty());
    let along = permissions_along(groups, order);
    let all = effective_permissions(groups, start);
    assert forall|node: Text| along.contains(node) <==> all.contains(node) by {
        if along.contains(node) {
            let i = choose|i: int|
                0 <= i < order.len() && groups.contains_key(#[trigger] order[i])
                    && groups[order[i]].permissions.contains(node);
            assert(order.contains(order[i]));
            assert(reachable(groups, start, order[i]));
        }
        if all.contains(node) {
            let g = choose|g: Text|
                #[trigger] reachable(groups, start, g) && groups.contains_key(g)
                    && groups[g].permissions.contains(node);
            assert(reaches_avoiding(groups, Set::empty(), start, g));
            assert(order.contains(g));
            let i = choose|i: int| 0 <= i < order.len() && order[i] == g;
            assert(groups.contains_key(order[i]));
        }
    }
    assert(along =~= all);
}

/// The nodes granted along two orders are those granted along either.
pub proof fn lemma_permissions_along_add(groups: Groups, a: Seq<Text>, b: Seq<Text>)
    ensures
        permissions_along(groups, a + b) == permissions_along(groups, a).union(
            permissions_along(groups, b),
        ),
{
    let c = a + b;
    let whole = permissions_along(groups, c);
    let parts = permissions_along(groups, a).union(permissions_along(groups, b));
    assert forall|node: Text| whole.contains(node) <==> parts.contains(node) by {
        if whole.contains(node) {
            let i = choose|i: int|
                0 <= i < c.len() && groups.contains_key(#[trigger] c[i])
                    && groups[c[i]].permissions.contains(node);
            if i < a.len() {
                assert(groups.contains_key(a[i]));
            } else {
                assert(groups.contains_key(b[i - a.len()]));
            }
        }
        if permissions_along(groups, a).contains(node) {
            let i = choose|i: int|
                0 <= i < a.len() && groups.contains_key(#[trigger] a[i])
                    && groups[a[i]].permissions.contains(node);
            assert(groups.contains_key(c[i]));
        }
        if permissions_along(groups, b).contains(node) {
            let i = choose|i: int|
                0 <= i < b.len() && groups.contains_key(#[trigger] b[i])
                    && groups[b[i]].permissions.contains(node);
            assert(c[a.len() + i] == b[i]);
            assert(groups.contains_key(c[a.len() + i]));
        }
    }
    assert(whole =~= parts);
}

/// The nodes granted along the order of a single name are those of the group
/// of that name, if there is one.
pub proof fn lemma_permissions_along_one(groups: Groups, name: Text)
    ensures
        permissions_along(groups, seq![name]) == (if groups.contains_key(name) {
            groups[name].permissions.to_set()
        } else {
            Set::empty()
        }),
{
    let order = seq![name];
    let along = permissions_along(groups, order);
    let own: Set<Text> = if groups.contains_key(name) {
        groups[name].permissions.to_set()
    } else {
        Set::empty()
    };
    assert forall|node: Text| along.contains(node) <==> own.contains(node) by {
        if along.contains(node) {
            let i = choose|i: int|
                0 <= i < order.len() && groups.contains_key(#[trigger] order[i])
                    && groups[order[i]].permissions.contains(node);
            assert(order[i] == name);
        }
        if own.contains(node) {
            assert(groups.contains_key(order[0]));
        }
    }
    assert(along =~= own);
}

/// A denial wins: a player with a denial of a node is denied it, whatever
/// grants the player or the player's group have.
pub proof fn law_denial_wins(groups: Groups, players: Players, id: u128, node: Text)
    requires
        denied(players, id, node),
    ensures
        permission_verdict(groups, players, id, node) == Some(false),
{
}

/// Only a denial of the very node denies: the wildcard among the denials
/// denies the node `*` and no other.
pub proof fn law_denial_is_literal(groups: Groups, players: Players, id: u128, node: Text)
    ensures
        permission_verdict(groups, players, id, node) == Some(false) <==> players.contains_key(id)
            && players[id].denied_permissions.contains(node),
{
}

/// The wildcard grants: with it among the personal grants or among what the
/// group grants, every node is granted but those with a denial of their own.
pub proof fn law_wildcard_grants(groups: Groups, players: Players, id: u128, node: Text)
    requires
        (players.contains_key(id) && players[id].extra_permissions.contains(wildcard()))
            || effective_permissions(groups, group_of(players, id)).contains(wildcard()),
    ensures
        permission_verdict(groups, players, id, node) == (if denied(players, id, node) {
            Some(false)
        } else {
            Some(true)
        }),
{
}

/// No opinion: a node that is neither denied nor granted, to the player or
/// by the group, where neither grants the wildcard, gets no verdict.
pub proof fn law_no_opinion(groups: Groups, players: Players, id: u128, node: Text)
    requires
        !denied(players, id, node),
        players.contains_key(id) ==> !players[id].extra_permissions.contains(node)
            && !players[id].extra_permissions.contains(wildcard()),
        !effective_permissions(groups, group_of(players, id)).contains(node),
        !effective_permissions(groups, group_of(players, id)).contains(wildcard()),
    ensures
        permission_verdict(groups, players, id, node) is None,
{
}

/// A group has a prefix exactly if a group that it reaches has one, and its
/// prefix is that of a group that it reaches.
pub proof fn law_prefix_is_reached(groups: Groups, start: Text)
    requires
        groups.dom().finite(),
    ensures
        match group_prefix(groups, start) {
            Some(p) => exists|g: Text|
                #[trigger] reachable(groups, start, g) && groups.contains_key(g)
                    && groups[g].prefix == Some(p),
            None => forall|g: Text|
                #[trigger] reachable(groups, start, g) && groups.contains_key(g)
                    ==> groups[g].prefix is None,
        },
{
    let order = visit(groups, start, Set::empty());
    lemma_visit_reaches(groups, start, Set::empty());
    lemma_first_prefix_found(groups, order);
    match group_prefix(groups, start) {
        Some(p) => {
            let i = choose|i: int|
                0 <= i < order.len() && groups.contains_key(#[trigger] order[i])
                    && groups[order[i]].prefix == Some(p);
            assert(order.contains(order[i]));
            assert(reachable(groups, start, order[i]));
        },
        None => {
            assert forall|g: Text| #[trigger]
                reachable(groups, start, g) && groups.contains_key(g) implies groups[g].prefix
                is None by {
                assert(reaches_avoiding(groups, Set::empty(), start, g));
                assert(order.contains(g));
                let i = choose|i: int| 0 <= i < order.len() && order[i] == g;
                assert(groups.contains_key(order[i]));
            }
        },
    }
}

/// A group's own prefix goes before any that it inherits.
pub proof fn law_own_prefix_first(groups: Groups, start: Text)
    requires
        groups.dom().finite(),
        groups.contains_key(start),
        groups[start].prefix is Some,
    ensures
        group_prefix(groups, start) == groups[start].prefix,
{
    let order = visit(groups, start, Set::empty());
    assert(order[0] == start);
}

} // verus!
