//! The inheritance graph of the groups: which groups a group reaches, and in
//! which order a search that never enters a name twice comes upon them.

use crate::model::GroupView;
use crate::text::Text;
use vstd::prelude::*;

verus! {

/// The groups of a store, by name.
pub type Groups = Map<Text, GroupView>;

/// `a` is a group that names `b` as a parent.
pub open spec fn edge(groups: Groups, a: Text, b: Text) -> bool {
    groups.contains_key(a) && groups[a].inheritance.contains(b)
}

/// `path` is a chain of names, each a parent of the one before it.
pub open spec fn is_path(groups: Groups, path: Seq<Text>) -> bool {
    &&& path.len() > 0
    &&& forall|i: int| 0 <= i < path.len() - 1 ==> edge(groups, #[trigger] path[i], path[i + 1])
}

/// No name on `path` is in `avoid`.
pub open spec fn path_avoids(path: Seq<Text>, avoid: Set<Text>) -> bool {
    forall|i: int| 0 <= i < path.len() ==> !avoid.contains(#[trigger] path[i])
}

/// `to` can be reached from `from` along inheritance without touching a name
/// in `avoid`.
pub open spec fn reaches_avoiding(groups: Groups, avoid: Set<Text>, from: Text, to: Text) -> bool {
    exists|path: Seq<Text>|
        #[trigger] is_path(groups, path) && path[0] == from && path.last() == to && path_avoids(
            path,
            avoid,
        )
}

/// `to` is `from` itself, a parent of it, a parent of a parent, and so on.
pub open spec fn reachable(groups: Groups, from: Text, to: Text) -> bool {
    reaches_avoiding(groups, Set::empty(), from, to)
}

/// The names reachable from `from` without touching `avoid`.
pub open spec fn reach_set(groups: Groups, avoid: Set<Text>, from: Text) -> Set<Text> {
    Set::new(|to: Text| reaches_avoiding(groups, avoid, from, to))
}

/// Number of groups whose name is not in `visited`.
pub open spec fn pending(groups: Groups, visited: Set<Text>) -> nat {
    groups.dom().difference(visited).len()
}

/// The names that a depth-first search from `name` enters, in the order in
/// which it enters them, when the names in `visited` were entered before.
/// A name is entered once; a name that is no group is entered and left at once.
pub open spec fn visit(groups: Groups, name: Text, visited: Set<Text>) -> Seq<Text>
    decreases pending(groups, visited), 0nat,
    when groups.dom().finite()
    via visit_decreases
{
    if visited.contains(name) {
        Seq::empty()
    } else if !groups.contains_key(name) {
        seq![name]
    } else {
        seq![name] + visit_each(groups, groups[name].inheritance, visited.insert(name))
    }
}

/// The names that the search enters while it goes through `parents` in order.
pub open spec fn visit_each(groups: Groups, parents: Seq<Text>, visited: Set<Text>) -> Seq<Text>
    decreases pending(groups, visited), 1 + parents.len(),
    when groups.dom().finite()
    via visit_each_decreases
{
    if parents.len() == 0 {
        Seq::empty()
    } else {
        let first = visit(groups, parents[0], visited);
        first + visit_each(groups, parents.drop_first(), visited.union(first.to_set()))
    }
}

#[via_fn]
proof fn visit_decreases(groups: Groups, name: Text, visited: Set<Text>) {
    if !visited.contains(name) && groups.contains_key(name) {
        lemma_pending_insert(groups, visited, name);
    }
}

#[via_fn]
proof fn visit_each_decreases(groups: Groups, parents: Seq<Text>, visited: Set<Text>) {
    assert forall|more: Set<Text>| pending(groups, #[trigger] visited.union(more)) <= pending(
        groups,
        visited,
    ) by {
        lemma_pending_grows(groups, visited, visited.union(more));
    }
}

/// Entering a group that was not entered before leaves fewer groups pending.
pub proof fn lemma_pending_insert(groups: Groups, visited: Set<Text>, name: Text)
    requires
        groups.dom().finite(),
        groups.contains_key(name),
        !visited.contains(name),
    ensures
        pending(groups, visited.insert(name)) < pending(groups, visited),
{
    let before = groups.dom().difference(visited);
    let after = groups.dom().difference(visited.insert(name));
    assert(after =~= before.remove(name));
    assert(before.contains(name));
}

/// A larger set of entered names leaves no more groups pending.
pub proof fn lemma_pending_grows(groups: Groups, visited: Set<Text>, more: Set<Text>)
    requires
        groups.dom().finite(),
        visited.subset_of(more),
    ensures
        pending(groups, more) <= pending(groups, visited),
{
    let before = groups.dom().difference(visited);
    let after = groups.dom().difference(more);
    assert(after.subset_of(before));
    vstd::set_lib::lemma_len_subset(after, before);
}

/// `to` can be reached from one of `starts` without touching `avoid`.
pub open spec fn reaches_any(groups: Groups, avoid: Set<Text>, starts: Seq<Text>, to: Text) -> bool {
    exists|i: int|
        0 <= i < starts.len() && reaches_avoiding(groups, avoid, #[trigger] starts[i], to)
}

/// The part of a path from position `from` on is a path.
pub proof fn lemma_path_suffix(groups: Groups, path: Seq<Text>, from: int)
    requires
        is_path(groups, path),
        0 <= from < path.len(),
    ensures
        is_path(groups, path.subrange(from, path.len() as int)),
{
    let tail = path.subrange(from, path.len() as int);
    assert forall|i: int| 0 <= i < tail.len() - 1 implies edge(
        groups,
        #[trigger] tail[i],
        tail[i + 1],
    ) by {
        assert(tail[i] == path[from + i]);
        assert(tail[i + 1] == path[from + i + 1]);
    }
}

/// Two paths make one where the end of the first has the start of the second
/// as a parent.
pub proof fn lemma_path_join(groups: Groups, a: Seq<Text>, b: Seq<Text>)
    requires
        is_path(groups, a),
        is_path(groups, b),
        edge(groups, a.last(), b[0]),
    ensures
        is_path(groups, a + b),
        (a + b)[0] == a[0],
        (a + b).last() == b.last(),
{
    let c = a + b;
    assert forall|i: int| 0 <= i < c.len() - 1 implies edge(groups, #[trigger] c[i], c[i + 1]) by {
        if i < a.len() - 1 {
            assert(c[i] == a[i] && c[i + 1] == a[i + 1]);
        } else if i == a.len() - 1 {
            assert(c[i] == a.last() && c[i + 1] == b[0]);
        } else {
            assert(c[i] == b[i - a.len()] && c[i + 1] == b[i - a.len() + 1]);
        }
    }
}

/// Avoiding more names is harder.
pub proof fn lemma_avoid_fewer(groups: Groups, avoid: Set<Text>, fewer: Set<Text>, from: Text, to: Text)
    requires
        reaches_avoiding(groups, avoid, from, to),
        fewer.subset_of(avoid),
    ensures
        reaches_avoiding(groups, fewer, from, to),
{
    let path = choose|path: Seq<Text>|
        #[trigger] is_path(groups, path) && path[0] == from && path.last() == to && path_avoids(
            path,
            avoid,
        );
    assert(path_avoids(path, fewer));
}

/// What is reached from a name that is reached, is reached.
pub proof fn lemma_reach_trans(groups: Groups, avoid: Set<Text>, a: Text, b: Text, c: Text)
    requires
        reaches_avoiding(groups, avoid, a, b),
        reaches_avoiding(groups, avoid, b, c),
    ensures
        reaches_avoiding(groups, avoid, a, c),
{
    let p = choose|path: Seq<Text>|
        #[trigger] is_path(groups, path) && path[0] == a && path.last() == b && path_avoids(
            path,
            avoid,
        );
    let q = choose|path: Seq<Text>|
        #[trigger] is_path(groups, path) && path[0] == b && path.last() == c && path_avoids(
            path,
            avoid,
        );
    if q.len() == 1 {
    } else {
        let tail = q.subrange(1, q.len() as int);
        lemma_path_suffix(groups, q, 1);
        assert(tail[0] == q[1]);
        assert(edge(groups, q[0], q[1]));
        lemma_path_join(groups, p, tail);
        let r = p + tail;
        assert(tail.last() == q.last());
        assert forall|i: int| 0 <= i < r.len() implies !avoid.contains(#[trigger] r[i]) by {
            if i < p.len() {
                assert(r[i] == p[i]);
            } else {
                assert(r[i] == tail[i - p.len()]);
                assert(tail[i - p.len()] == q[i - p.len() + 1]);
            }
        }
        assert(is_path(groups, r));
    }
}

/// A name reaches itself unless it is to be avoided.
pub proof fn lemma_reach_self(groups: Groups, avoid: Set<Text>, name: Text)
    requires
        !avoid.contains(name),
    ensures
        reaches_avoiding(groups, avoid, name, name),
{
    let path = seq![name];
    assert(is_path(groups, path));
    assert(path[0] == name && path.last() == name);
    assert(path_avoids(path, avoid));
}

/// A group reaches what its parents reach.
pub proof fn lemma_reach_step(groups: Groups, avoid: Set<Text>, name: Text, parent: Text, to: Text)
    requires
        !avoid.contains(name),
        edge(groups, name, parent),
        reaches_avoiding(groups, avoid, parent, to),
    ensures
        reaches_avoiding(groups, avoid, name, to),
{
    let path = seq![name, parent];
    assert(path_avoids(path, avoid)) by {
        let q = choose|q: Seq<Text>|
            #[trigger] is_path(groups, q) && q[0] == parent && q.last() == to && path_avoids(
                q,
                avoid,
            );
        assert(!avoid.contains(q[0]));
    }
    assert(is_path(groups, path));
    assert(path[0] == name && path.last() == parent);
    lemma_reach_trans(groups, avoid, name, parent, to);
}

/// What a name reaches besides itself, one of its parents reaches without
/// coming back to the name.
pub proof fn lemma_reach_unfold(groups: Groups, avoid: Set<Text>, path: Seq<Text>)
    requires
        is_path(groups, path),
        path_avoids(path, avoid),
        path.last() != path[0],
    ensures
        groups.contains_key(path[0]),
        reaches_any(
            groups,
            avoid.insert(path[0]),
            groups[path[0]].inheritance,
            path.last(),
        ),
    decreases path.len(),
{
    let name = path[0];
    let n = path.len() as int;
    assert(edge(groups, path[0], path[1]));
    if exists|j: int| 1 <= j < n && path[j] == name {
        let j = choose|j: int| 1 <= j < n && path[j] == name;
        let tail = path.subrange(j, n);
        lemma_path_suffix(groups, path, j);
        assert(tail[0] == path[j]);
        assert(tail.last() == path.last());
        assert forall|i: int| 0 <= i < tail.len() implies !avoid.contains(#[trigger] tail[i]) by {
            assert(tail[i] == path[j + i]);
        }
        lemma_reach_unfold(groups, avoid, tail);
    } else {
        let tail = path.subrange(1, n);
        lemma_path_suffix(groups, path, 1);
        assert(tail[0] == path[1]);
        assert(tail.last() == path.last());
        let more = avoid.insert(name);
        assert forall|i: int| 0 <= i < tail.len() implies !more.contains(#[trigger] tail[i]) by {
            assert(tail[i] == path[1 + i]);
        }
        assert(is_path(groups, tail));
        assert(reaches_avoiding(groups, more, path[1], path.last()));
        let parents = groups[name].inheritance;
        let k = choose|k: int| 0 <= k < parents.len() && parents[k] == path[1];
        assert(reaches_avoiding(groups, more, parents[k], path.last()));
    }
}

/// What is reached while avoiding `avoid` is either reached from `first`, or
/// reached while avoiding also all that `first` reaches.
pub proof fn lemma_reach_split(groups: Groups, avoid: Set<Text>, first: Text, from: Text, to: Text)
    requires
        reaches_avoiding(groups, avoid, from, to),
    ensures
        reaches_avoiding(groups, avoid, first, to) || reaches_avoiding(
            groups,
            avoid.union(reach_set(groups, avoid, first)),
            from,
            to,
        ),
{
    let path = choose|path: Seq<Text>|
        #[trigger] is_path(groups, path) && path[0] == from && path.last() == to && path_avoids(
            path,
            avoid,
        );
    let seen = reach_set(groups, avoid, first);
    if exists|j: int| 0 <= j < path.len() && seen.contains(path[j]) {
        let j = choose|j: int| 0 <= j < path.len() && seen.contains(path[j]);
        let tail = path.subrange(j, path.len() as int);
        lemma_path_suffix(groups, path, j);
        assert(tail[0] == path[j]);
        assert(tail.last() == path.last());
        assert forall|i: int| 0 <= i < tail.len() implies !avoid.contains(#[trigger] tail[i]) by {
            assert(tail[i] == path[j + i]);
        }
        assert(is_path(groups, tail));
        assert(reaches_avoiding(groups, avoid, path[j], to));
        lemma_reach_trans(groups, avoid, first, path[j], to);
    } else {
        assert(path_avoids(path, avoid.union(seen)));
    }
}

/// The search from `name` enters exactly the names that `name` reaches without
/// touching a name entered before.
pub proof fn lemma_visit_reaches(groups: Groups, name: Text, visited: Set<Text>)
    requires
        groups.dom().finite(),
    ensures
        forall|x: Text|
            visit(groups, name, visited).contains(x) <==> reaches_avoiding(
                groups,
                visited,
                name,
                x,
            ),
    decreases pending(groups, visited), 0nat,
{
    let order = visit(groups, name, visited);
    assert forall|x: Text| order.contains(x) <==> reaches_avoiding(groups, visited, name, x) by {
        if visited.contains(name) {
            if reaches_avoiding(groups, visited, name, x) {
                let path = choose|path: Seq<Text>|
                    #[trigger] is_path(groups, path) && path[0] == name && path.last() == x
                        && path_avoids(path, visited);
                assert(!visited.contains(path[0]));
            }
        } else {
            lemma_reach_self(groups, visited, name);
            let more = visited.insert(name);
            if order.contains(x) {
                if x != name {
                    assert(groups.contains_key(name));
                    let parents = groups[name].inheritance;
                    lemma_pending_insert(groups, visited, name);
                    lemma_visit_each_reaches(groups, parents, more);
                    let rest = visit_each(groups, parents, more);
                    assert(order == seq![name] + rest);
                    let k = choose|k: int| 0 <= k < order.len() && order[k] == x;
                    assert(rest[k - 1] == x);
                    assert(rest.contains(x));
                    assert(reaches_any(groups, more, parents, x));
                    let i = choose|i: int|
                        0 <= i < parents.len() && reaches_avoiding(
                            groups,
                            more,
                            #[trigger] parents[i],
                            x,
                        );
                    lemma_avoid_fewer(groups, more, visited, parents[i], x);
                    lemma_reach_step(groups, visited, name, parents[i], x);
                }
            }
            if reaches_avoiding(groups, visited, name, x) {
                if x == name {
                    assert(order[0] == name);
                } else {
                    let path = choose|path: Seq<Text>|
                        #[trigger] is_path(groups, path) && path[0] == name && path.last() == x
                            && path_avoids(path, visited);
                    lemma_reach_unfold(groups, visited, path);
                    let parents = groups[name].inheritance;
                    lemma_pending_insert(groups, visited, name);
                    lemma_visit_each_reaches(groups, parents, more);
                    let rest = visit_each(groups, parents, more);
                    assert(rest.contains(x));
                    let k = choose|k: int| 0 <= k < rest.len() && rest[k] == x;
                    assert(order == seq![name] + rest);
                    assert(order[k + 1] == x);
                }
            }
        }
    }
}

/// The search through `parents` enters exactly the names that one of them
/// reaches without touching a name entered before.
pub proof fn lemma_visit_each_reaches(groups: Groups, parents: Seq<Text>, visited: Set<Text>)
    requires
        groups.dom().finite(),
    ensures
        forall|x: Text|
            visit_each(groups, parents, visited).contains(x) <==> reaches_any(
                groups,
                visited,
                parents,
                x,
            ),
    decreases pending(groups, visited), 1 + parents.len(),
{
    let order = visit_each(groups, parents, visited);
    if parents.len() == 0 {
        assert forall|x: Text| order.contains(x) <==> reaches_any(groups, visited, parents, x) by {}
    } else {
        let first = visit(groups, parents[0], visited);
        let more = visited.union(first.to_set());
        let others = parents.drop_first();
        let rest = visit_each(groups, others, more);
        assert(order == first + rest);
        lemma_visit_reaches(groups, parents[0], visited);
        lemma_pending_grows(groups, visited, more);
        lemma_visit_each_reaches(groups, others, more);
        assert(first.to_set() =~= reach_set(groups, visited, parents[0]));
        assert forall|x: Text| order.contains(x) <==> reaches_any(groups, visited, parents, x) by {
            if order.contains(x) {
                let k = choose|k: int| 0 <= k < order.len() && order[k] == x;
                if k < first.len() {
                    assert(first[k] == x);
                    assert(first.contains(x));
                    assert(reaches_avoiding(groups, visited, parents[0], x));
                } else {
                    assert(rest[k - first.len()] == x);
                    assert(rest.contains(x));
                    assert(reaches_any(groups, more, others, x));
                    let i = choose|i: int|
                        0 <= i < others.len() && reaches_avoiding(
                            groups,
                            more,
                            #[trigger] others[i],
                            x,
                        );
                    lemma_avoid_fewer(groups, more, visited, others[i], x);
                    assert(others[i] == parents[i + 1]);
                    assert(reaches_avoiding(groups, visited, parents[i + 1], x));
                }
            }
            if reaches_any(groups, visited, parents, x) {
                let i = choose|i: int|
                    0 <= i < parents.len() && reaches_avoiding(
                        groups,
                        visited,
                        #[trigger] parents[i],
                        x,
                    );
                lemma_reach_split(groups, visited, parents[0], parents[i], x);
                if reaches_avoiding(groups, visited, parents[0], x) {
                    assert(first.contains(x));
                    let k = choose|k: int| 0 <= k < first.len() && first[k] == x;
                    assert(order[k] == x);
                } else {
                    assert(i > 0);
                    assert(others[i - 1] == parents[i]);
                    assert(reaches_avoiding(groups, more, others[i - 1], x));
                    assert(reaches_any(groups, more, others, x));
                    assert(rest.contains(x));
                    let k = choose|k: int| 0 <= k < rest.len() && rest[k] == x;
                    assert(order[first.len() + k] == x);
                }
            }
        }
    }
}

/// What is reached while some names are avoided is none of those names.
pub proof fn lemma_reached_is_fresh(groups: Groups, avoid: Set<Text>, from: Text, to: Text)
    requires
        reaches_avoiding(groups, avoid, from, to),
    ensures
        !avoid.contains(to),
        !avoid.contains(from),
{
    let path = choose|path: Seq<Text>|
        #[trigger] is_path(groups, path) && path[0] == from && path.last() == to && path_avoids(
            path,
            avoid,
        );
    assert(!avoid.contains(path[0]));
    assert(!avoid.contains(path[path.len() - 1]));
}

/// The search from `name` enters no name twice, and none that was entered
/// before.
pub proof fn lemma_visit_once(groups: Groups, name: Text, visited: Set<Text>)
    requires
        groups.dom().finite(),
    ensures
        visit(groups, name, visited).no_duplicates(),
        forall|i: int|
            0 <= i < visit(groups, name, visited).len() ==> !visited.contains(
                #[trigger] visit(groups, name, visited)[i],
            ),
    decreases pending(groups, visited), 0nat,
{
    let order = visit(groups, name, visited);
    lemma_visit_reaches(groups, name, visited);
    assert forall|i: int| 0 <= i < order.len() implies !visited.contains(#[trigger] order[i]) by {
        assert(order.contains(order[i]));
        lemma_reached_is_fresh(groups, visited, name, order[i]);
    }
    if !visited.contains(name) && groups.contains_key(name) {
        let more = visited.insert(name);
        let rest = visit_each(groups, groups[name].inheritance, more);
        lemma_pending_insert(groups, visited, name);
        lemma_visit_each_once(groups, groups[name].inheritance, more);
        assert(order == seq![name] + rest);
        assert forall|i: int, j: int| 0 <= i < order.len() && 0 <= j < order.len() && i != j implies order[i]
            != order[j] by {
            if i > 0 {
                assert(order[i] == rest[i - 1]);
            }
            if j > 0 {
                assert(order[j] == rest[j - 1]);
            }
        }
    }
}

/// The search through `parents` enters no name twice, and none that was
/// entered before.
pub proof fn lemma_visit_each_once(groups: Groups, parents: Seq<Text>, visited: Set<Text>)
    requires
        groups.dom().finite(),
    ensures
        visit_each(groups, parents, visited).no_duplicates(),
        forall|i: int|
            0 <= i < visit_each(groups, parents, visited).len() ==> !visited.contains(
                #[trigger] visit_each(groups, parents, visited)[i],
            ),
    decreases pending(groups, visited), 1 + parents.len(),
{
    let order = visit_each(groups, parents, visited);
    if parents.len() > 0 {
        let first = visit(groups, parents[0], visited);
        let more = visited.union(first.to_set());
        let rest = visit_each(groups, parents.drop_first(), more);
        assert(order == first + rest);
        lemma_visit_once(groups, parents[0], visited);
        lemma_pending_grows(groups, visited, more);
        lemma_visit_each_once(groups, parents.drop_first(), more);
        assert forall|i: int| 0 <= i < order.len() implies !visited.contains(
            #[trigger] order[i],
        ) by {
            if i < first.len() {
                assert(order[i] == first[i]);
            } else {
                assert(order[i] == rest[i - first.len()]);
                assert(!more.contains(rest[i - first.len()]));
            }
        }
        assert forall|i: int, j: int| 0 <= i < order.len() && 0 <= j < order.len() && i != j implies order[i]
            != order[j] by {
            if i < first.len() && j >= first.len() {
                assert(order[i] == first[i]);
                assert(first.contains(first[i]));
                assert(order[j] == rest[j - first.len()]);
                assert(!more.contains(rest[j - first.len()]));
            } else if j < first.len() && i >= first.len() {
                assert(order[j] == first[j]);
                assert(first.contains(first[j]));
                assert(order[i] == rest[i - first.len()]);
                assert(!more.contains(rest[i - first.len()]));
            } else if i < first.len() {
                assert(order[i] == first[i] && order[j] == first[j]);
            } else {
                assert(order[i] == rest[i - first.len()] && order[j] == rest[j - first.len()]);
            }
        }
    }
}

/// The search from a group comes to an end, whatever circles the inheritance
/// has, and enters exactly the names that the group reaches, each once.
pub proof fn law_search_reaches(groups: Groups, start: Text)
    requires
        groups.dom().finite(),
    ensures
        visit(groups, start, Set::empty()).no_duplicates(),
        forall|name: Text|
            visit(groups, start, Set::empty()).contains(name) <==> reachable(groups, start, name),
{
    lemma_visit_once(groups, start, Set::empty());
    lemma_visit_reaches(groups, start, Set::empty());
}

} // verus!
