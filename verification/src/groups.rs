//! The table of groups and the search through their inheritance.

use crate::graph::{
    lemma_pending_grows, lemma_pending_insert, pending, visit, visit_each, Groups,
};
use crate::model::{
    builtin_default_group, default_group, default_group_name, Group, GroupView,
};
use crate::resolve::{
    effective_permissions, first_prefix, group_prefix, lemma_first_prefix_add,
    lemma_permissions_along_add, lemma_permissions_along_one, lemma_permissions_along_search,
    permissions_along,
};
use crate::text::{
    contains_text, first_index, lemma_first_index, lemma_single_to_set, lemma_texts_push,
    opt_text, position_of, push_unique, texts, Text,
};
use vstd::prelude::*;
use vstd::string::StringExecFns;

verus! {

/// What a list of groups holds.
pub open spec fn group_views(data: Seq<Group>) -> Seq<GroupView> {
    Seq::new(data.len(), |i: int| data[i]@)
}

/// The groups given by a list of names and the list of what each name stands
/// for.
pub open spec fn groups_of(names: Seq<Text>, data: Seq<GroupView>) -> Groups {
    Map::new(|name: Text| names.contains(name), |name: Text| data[first_index(names, name)])
}

/// The names held by a list of strings, as a set.
pub open spec fn name_set(items: Seq<String>) -> Set<Text> {
    texts(items).to_set()
}

/// The default group alone, with its two built-in permissions.
pub open spec fn builtin_groups() -> Groups {
    Map::<Text, GroupView>::empty().insert(default_group_name(), builtin_default_group())
}

/// The groups with the built-in default group added where they have no
/// default group; a default group that is there stays as it is.
pub open spec fn with_default(groups: Groups) -> Groups {
    if groups.contains_key(default_group_name()) {
        groups
    } else {
        groups.insert(default_group_name(), builtin_default_group())
    }
}

/// Where no name occurs twice, each name is found at its own place.
pub proof fn lemma_first_index_unique(names: Seq<Text>, i: int)
    requires
        names.no_duplicates(),
        0 <= i < names.len(),
    ensures
        first_index(names, names[i]) == i,
{
    lemma_first_index(names, names[i]);
    assert(names.contains(names[i]));
}

/// A new name at the end of the lists adds one group.
pub proof fn lemma_groups_push(names: Seq<Text>, data: Seq<GroupView>, name: Text, group: GroupView)
    requires
        names.len() == data.len(),
        names.no_duplicates(),
        !names.contains(name),
    ensures
        groups_of(names.push(name), data.push(group)) == groups_of(names, data).insert(name, group),
        names.push(name).no_duplicates(),
{
    let more = names.push(name);
    let before = groups_of(names, data);
    let after = groups_of(more, data.push(group));
    assert forall|i: int, j: int| 0 <= i < more.len() && 0 <= j < more.len() && i != j implies more[i]
        != more[j] by {
        if i < names.len() {
            assert(names.contains(more[i]));
        }
        if j < names.len() {
            assert(names.contains(more[j]));
        }
    }
    assert forall|x: Text| after.contains_key(x) <==> before.insert(name, group).contains_key(
        x,
    ) by {
        if more.contains(x) {
            let i = choose|i: int| 0 <= i < more.len() && more[i] == x;
            if i < names.len() {
                assert(names[i] == x);
            }
        }
        if names.contains(x) {
            let i = choose|i: int| 0 <= i < names.len() && names[i] == x;
            assert(more[i] == x);
        }
        if x == name {
            assert(more[names.len() as int] == x);
        }
    }
    assert forall|x: Text| after.contains_key(x) implies after[x] == before.insert(name, group)[x] by {
        let i = choose|i: int| 0 <= i < more.len() && more[i] == x;
        lemma_first_index_unique(more, i);
        if i < names.len() {
            assert(names[i] == x);
            lemma_first_index_unique(names, i);
        }
    }
    assert(after =~= before.insert(name, group));
}

/// Another group at a place in the list changes the group of the name at
/// that place.
pub proof fn lemma_groups_update(names: Seq<Text>, data: Seq<GroupView>, at: int, group: GroupView)
    requires
        names.len() == data.len(),
        names.no_duplicates(),
        0 <= at < names.len(),
    ensures
        groups_of(names, data.update(at, group)) == groups_of(names, data).insert(names[at], group),
{
    let before = groups_of(names, data);
    let after = groups_of(names, data.update(at, group));
    assert forall|x: Text| after.contains_key(x) <==> before.insert(names[at], group).contains_key(
        x,
    ) by {}
    assert forall|x: Text| after.contains_key(x) implies after[x] == before.insert(
        names[at],
        group,
    )[x] by {
        let i = choose|i: int| 0 <= i < names.len() && names[i] == x;
        lemma_first_index_unique(names, i);
        lemma_first_index_unique(names, at);
    }
    assert(after =~= before.insert(names[at], group));
}

/// Without a place in the lists the table is without the name at that place.
pub proof fn lemma_groups_remove(names: Seq<Text>, data: Seq<GroupView>, at: int)
    requires
        names.len() == data.len(),
        names.no_duplicates(),
        0 <= at < names.len(),
    ensures
        groups_of(names.remove(at), data.remove(at)) == groups_of(names, data).remove(names[at]),
        names.remove(at).no_duplicates(),
{
    let fewer = names.remove(at);
    let before = groups_of(names, data);
    let after = groups_of(fewer, data.remove(at));
    assert forall|i: int| 0 <= i < fewer.len() implies #[trigger] fewer[i] == names[if i < at {
        i
    } else {
        i + 1
    }] by {}
    assert forall|i: int, j: int| 0 <= i < fewer.len() && 0 <= j < fewer.len() && i != j implies fewer[i]
        != fewer[j] by {}
    assert forall|x: Text| after.contains_key(x) <==> before.remove(names[at]).contains_key(x) by {
        if fewer.contains(x) {
            let i = choose|i: int| 0 <= i < fewer.len() && fewer[i] == x;
            let k = if i < at { i } else { i + 1 };
            assert(names[k] == x);
        }
        if names.contains(x) && x != names[at] {
            let k = choose|k: int| 0 <= k < names.len() && names[k] == x;
            let i = if k < at { k } else { k - 1 };
            assert(fewer[i] == x);
        }
    }
    assert forall|x: Text| after.contains_key(x) implies after[x] == before.remove(names[at])[x] by {
        let i = choose|i: int| 0 <= i < fewer.len() && fewer[i] == x;
        let k = if i < at { i } else { i + 1 };
        lemma_first_index_unique(fewer, i);
        assert(names[k] == x);
        lemma_first_index_unique(names, k);
    }
    assert(after =~= before.remove(names[at]));
}

/// The groups of a store, each under its name.  No two groups have the same
/// name.
pub struct GroupTable {
    names: Vec<String>,
    data: Vec<Group>,
}

impl View for GroupTable {
    type V = Groups;

    closed spec fn view(&self) -> Groups {
        groups_of(texts(self.names@), group_views(self.data@))
    }
}

impl GroupTable {
    #[verifier::type_invariant]
    spec fn inv(self) -> bool {
        &&& self.names.len() == self.data.len()
        &&& texts(self.names@).no_duplicates()
    }

    /// The names of the groups, in the order in which the table lists them.
    pub closed spec fn listed(&self) -> Seq<Text> {
        texts(self.names@)
    }

    /// A table has finitely many groups, and lists each name once.
    pub proof fn lemma_listed(&self)
        ensures
            self@.dom().finite(),
            self.listed().to_set() == self@.dom(),
    {
        let names = texts(self.names@);
        vstd::seq_lib::seq_to_set_is_finite(names);
        assert(self@.dom() =~= names.to_set());
    }

    /// A table without groups.
    pub fn new() -> (r: GroupTable)
        ensures
            r@ == Map::<Text, GroupView>::empty(),
            r.listed() == Seq::<Text>::empty(),
    {
        let r = GroupTable { names: Vec::new(), data: Vec::new() };
        assert(r@ =~= Map::<Text, GroupView>::empty());
        assert(r.listed() =~= Seq::<Text>::empty());
        r
    }

    /// Position of the group `name` in the lists of the table.
    fn find_group(&self, name: &String) -> (r: Option<usize>)
        ensures
            match r {
                Some(i) => i < self.data.len() && i < self.names.len() && self@.contains_key(
                    name@,
                ) && self@[name@] == self.data[i as int]@ && texts(self.names@)[i as int]
                    == name@,
                None => !self@.contains_key(name@),
            },
    {
        proof {
            use_type_invariant(self);
            lemma_first_index(texts(self.names@), name@);
        }
        position_of(&self.names, name)
    }

    /// The group `name`, if the table has it.
    pub fn get(&self, name: &str) -> (r: Option<&Group>)
        ensures
            match r {
                Some(g) => self@.contains_key(name@) && g@ == self@[name@],
                None => !self@.contains_key(name@),
            },
    {
        let key = String::from_str(name);
        match self.find_group(&key) {
            Some(i) => Some(&self.data[i]),
            None => None,
        }
    }

    /// Whether the table has a group `name`.
    pub fn contains_key(&self, name: &str) -> (r: bool)
        ensures
            r == self@.contains_key(name@),
    {
        let key = String::from_str(name);
        self.find_group(&key).is_some()
    }

    /// The names of the groups, each once, in the order in which the table
    /// lists them.
    pub fn names(&self) -> (r: Vec<String>)
        ensures
            texts(r@) == self.listed(),
            texts(r@).no_duplicates(),
            texts(r@).to_set() == self@.dom(),
    {
        let mut out: Vec<String> = Vec::new();
        let mut i: usize = 0;
        while i < self.names.len()
            invariant
                i <= self.names.len(),
                texts(out@) == texts(self.names@).take(i as int),
            decreases self.names.len() - i,
        {
            let copy = self.names[i].clone();
            proof {
                lemma_texts_push(out@, copy);
                assert(texts(self.names@).take(i + 1) =~= texts(self.names@).take(i as int).push(
                    copy@,
                ));
            }
            out.push(copy);
            i = i + 1;
        }
        proof {
            use_type_invariant(self);
            self.lemma_listed();
            assert(texts(self.names@).take(self.names.len() as int) =~= texts(self.names@));
        }
        out
    }

    /// Puts `group` under `name`, in place of the group that had the name, if
    /// there was one, which is handed back.
    pub fn insert(&mut self, name: String, group: Group) -> (r: Option<Group>)
        ensures
            final(self)@ == old(self)@.insert(name@, group@),
            match r {
                Some(g) => old(self)@.contains_key(name@) && g@ == old(self)@[name@],
                None => !old(self)@.contains_key(name@),
            },
    {
        match self.find_group(&name) {
            Some(i) => {
                proof {
                    use_type_invariant(&*self);
                    lemma_groups_update(texts(self.names@), group_views(self.data@), i as int, group@);
                }
                let mut held = group;
                std::mem::swap(&mut self.data[i], &mut held);
                proof {
                    assert(group_views(self.data@) =~= group_views(old(self).data@).update(
                        i as int,
                        group@,
                    ));
                }
                Some(held)
            },
            None => {
                proof {
                    use_type_invariant(&*self);
                }
                let mut taken = GroupTable::new();
                std::mem::swap(self, &mut taken);
                let GroupTable { mut names, mut data } = taken;
                proof {
                    lemma_groups_push(texts(names@), group_views(data@), name@, group@);
                    lemma_texts_push(names@, name);
                    assert(group_views(data@.push(group)) =~= group_views(data@).push(group@));
                }
                names.push(name);
                data.push(group);
                *self = GroupTable { names, data };
                None
            },
        }
    }

    /// Gives the table the built-in default group where it has no default
    /// group.
    pub fn ensure_default(&mut self)
        ensures
            final(self)@ == with_default(old(self)@),
            final(self)@.contains_key(default_group_name()),
    {
        if !self.contains_key("default") {
            self.insert(default_group(), Group::builtin_default());
        }
    }

    /// Takes the group `name` out of the table and hands it back, if there is
    /// one.
    pub fn remove(&mut self, name: &str) -> (r: Option<Group>)
        ensures
            final(self)@ == old(self)@.remove(name@),
            match r {
                Some(g) => old(self)@.contains_key(name@) && g@ == old(self)@[name@],
                None => !old(self)@.contains_key(name@),
            },
    {
        let key = String::from_str(name);
        match self.find_group(&key) {
            Some(i) => {
                proof {
                    use_type_invariant(&*self);
                }
                let mut taken = GroupTable::new();
                std::mem::swap(self, &mut taken);
                let GroupTable { mut names, mut data } = taken;
                proof {
                    lemma_groups_remove(texts(names@), group_views(data@), i as int);
                    assert(texts(names@.remove(i as int)) =~= texts(names@).remove(i as int));
                    assert(group_views(data@.remove(i as int)) =~= group_views(data@).remove(
                        i as int,
                    ));
                }
                names.remove(i);
                let gone = data.remove(i);
                *self = GroupTable { names, data };
                Some(gone)
            },
            None => {
                proof {
                    assert(self@.remove(name@) =~= self@);
                }
                None
            },
        }
    }

    /// The group `name`, to be changed in place, if the table has it.  What
    /// the caller writes into it is what the table then holds under `name`.
    pub fn get_mut(&mut self, name: &str) -> (r: Option<&mut Group>)
        ensures
            match r {
                Some(g) => {
                    &&& old(self)@.contains_key(name@)
                    &&& g@ == old(self)@[name@]
                    &&& final(self)@ == old(self)@.insert(name@, final(g)@)
                },
                None => !old(self)@.contains_key(name@) && final(self)@ == old(self)@,
            },
    {
        let key = String::from_str(name);
        match self.find_group(&key) {
            Some(i) => {
                proof {
                    use_type_invariant(&*self);
                    assert forall|g: Group| #[trigger]
                        group_views(self.data@.update(i as int, g)) == group_views(
                            self.data@,
                        ).update(i as int, g@) by {
                        assert(group_views(self.data@.update(i as int, g)) =~= group_views(
                            self.data@,
                        ).update(i as int, g@));
                    }
                    assert forall|v: GroupView| #[trigger]
                        groups_of(
                            texts(self.names@),
                            group_views(self.data@).update(i as int, v),
                        ) == self@.insert(name@, v) by {
                        lemma_groups_update(texts(self.names@), group_views(self.data@), i as int, v);
                    }
                }
                Some(&mut self.data[i])
            },
            None => None,
        }
    }

    /// Adds to `result` what the search from `group_name` finds, and to
    /// `visited` the names that it enters.
    fn collect_permissions(
        &self,
        group_name: &String,
        result: &mut Vec<String>,
        visited: &mut Vec<String>,
    )
        requires
            texts(old(result)@).no_duplicates(),
        ensures
            name_set(final(visited)@) == name_set(old(visited)@).union(
                visit(self@, group_name@, name_set(old(visited)@)).to_set(),
            ),
            name_set(final(result)@) == name_set(old(result)@).union(
                permissions_along(
                    self@,
                    visit(self@, group_name@, name_set(old(visited)@)),
                ),
            ),
            texts(final(result)@).no_duplicates(),
        decreases pending(self@, name_set(old(visited)@)),
    {
        let ghost groups = self@;
        let ghost name = group_name@;
        let ghost seen = name_set(visited@);
        let ghost found = name_set(result@);
        let ghost order = visit(groups, name, seen);
        proof {
            self.lemma_listed();
        }
        if contains_text(visited, group_name) {
            proof {
                assert(order =~= Seq::empty());
                assert(seen.union(order.to_set()) =~= seen);
                assert(found.union(permissions_along(groups, order)) =~= found);
            }
            return ;
        }
        push_unique(visited, group_name);
        let ghost entered = seen.insert(name);
        match self.find_group(group_name) {
            None => {
                proof {
                    assert(order =~= seq![name]);
                    lemma_single_to_set(name);
                    assert(seen.union(order.to_set()) =~= entered);
                    lemma_permissions_along_one(groups, name);
                    assert(found.union(permissions_along(groups, order)) =~= found);
                }
            },
            Some(at) => {
                let group = &self.data[at];
                let ghost own = texts(group.permissions@);
                let mut k: usize = 0;
                while k < group.permissions.len()
                    invariant
                        k <= group.permissions.len(),
                        own == texts(group.permissions@),
                        texts(result@).no_duplicates(),
                        name_set(result@) == found.union(own.take(k as int).to_set()),
                    decreases group.permissions.len() - k,
                {
                    push_unique(result, &group.permissions[k]);
                    proof {
                        let more = own.take(k + 1);
                        assert(more =~= own.take(k as int).push(own[k as int]));
                        own.take(k as int).lemma_push_to_set_commute(own[k as int]);
                        assert(name_set(result@) =~= found.union(more.to_set()));
                    }
                    k = k + 1;
                }
                let ghost parents = texts(group.inheritance@);
                let ghost granted = found.union(own.to_set());
                let ghost mut done: Seq<Text> = Seq::empty();
                proof {
                    assert(own.take(own.len() as int) =~= own);
                    assert(parents.skip(0) =~= parents);
                    assert(entered.union(done.to_set()) =~= entered);
                    assert(granted.union(permissions_along(groups, done)) =~= granted);
                    lemma_pending_insert(groups, seen, name);
                    assert(visit_each(groups, parents, entered) =~= done + visit_each(
                        groups,
                        parents.skip(0),
                        entered,
                    ));
                }
                let mut j: usize = 0;
                while j < group.inheritance.len()
                    invariant
                        j <= group.inheritance.len(),
                        groups == self@,
                        groups.dom().finite(),
                        seen == name_set(old(visited)@),
                        parents == texts(group.inheritance@),
                        texts(result@).no_duplicates(),
                        pending(groups, entered) < pending(groups, seen),
                        visit_each(groups, parents, entered) == done + visit_each(
                            groups,
                            parents.skip(j as int),
                            name_set(visited@),
                        ),
                        name_set(visited@) == entered.union(done.to_set()),
                        name_set(result@) == granted.union(permissions_along(groups, done)),
                    decreases group.inheritance.len() - j,
                {
                    let ghost now = name_set(visited@);
                    let ghost had = name_set(result@);
                    let ghost first = visit(groups, parents[j as int], now);
                    proof {
                        lemma_pending_grows(groups, entered, now);
                    }
                    self.collect_permissions(&group.inheritance[j], result, visited);
                    proof {
                        let rest = parents.skip(j as int);
                        assert(rest[0] == parents[j as int]);
                        assert(rest.drop_first() =~= parents.skip(j + 1));
                        assert(visit_each(groups, rest, now) == first + visit_each(
                            groups,
                            parents.skip(j + 1),
                            now.union(first.to_set()),
                        ));
                        vstd::seq_lib::seq_to_set_distributes_over_add(done, first);
                        lemma_permissions_along_add(groups, done, first);
                        assert(name_set(visited@) =~= entered.union((done + first).to_set()));
                        assert(name_set(result@) =~= granted.union(
                            permissions_along(groups, done + first),
                        ));
                        assert(done + (first + visit_each(
                            groups,
                            parents.skip(j + 1),
                            now.union(first.to_set()),
                        )) =~= (done + first) + visit_each(
                            groups,
                            parents.skip(j + 1),
                            now.union(first.to_set()),
                        ));
                        done = done + first;
                    }
                    j = j + 1;
                }
                proof {
                    assert(parents.skip(parents.len() as int) =~= Seq::<Text>::empty());
                    assert(visit_each(groups, parents, entered) =~= done);
                    assert(order == seq![name] + done);
                    vstd::seq_lib::seq_to_set_distributes_over_add(seq![name], done);
                    lemma_single_to_set(name);
                    assert(name_set(visited@) =~= seen.union(order.to_set()));
                    lemma_permissions_along_add(groups, seq![name], done);
                    lemma_permissions_along_one(groups, name);
                    assert(name_set(result@) =~= found.union(permissions_along(groups, order)));
                }
            },
        }
    }

    /// The permission nodes that the group `group_name` grants itself or
    /// inherits, each once.  A parent that is no group adds nothing, and so
    /// does a parent that was searched before.
    pub fn resolve_permissions(&self, group_name: &str) -> (r: Vec<String>)
        ensures
            texts(r@).to_set() == effective_permissions(self@, group_name@),
            texts(r@).no_duplicates(),
    {
        let mut result: Vec<String> = Vec::new();
        let mut visited: Vec<String> = Vec::new();
        let start = String::from_str(group_name);
        proof {
            self.lemma_listed();
            lemma_permissions_along_search(self@, group_name@);
            assert(name_set(visited@) =~= Set::empty());
            assert(name_set(result@) =~= Set::empty());
        }
        self.collect_permissions(&start, &mut result, &mut visited);
        proof {
            assert(name_set(result@) =~= effective_permissions(self@, group_name@));
        }
        result
    }

    /// The first prefix that the search from `group_name` comes upon.  While
    /// it finds none, it adds to `visited` the names that it enters.
    fn find_group_prefix(&self, group_name: &String, visited: &mut Vec<String>) -> (r: Option<
        String,
    >)
        ensures
            opt_text(r) == first_prefix(
                self@,
                visit(self@, group_name@, name_set(old(visited)@)),
            ),
            r is None ==> name_set(final(visited)@) == name_set(old(visited)@).union(
                visit(self@, group_name@, name_set(old(visited)@)).to_set(),
            ),
        decreases pending(self@, name_set(old(visited)@)),
    {
        let ghost groups = self@;
        let ghost name = group_name@;
        let ghost seen = name_set(visited@);
        let ghost order = visit(groups, name, seen);
        proof {
            self.lemma_listed();
        }
        if contains_text(visited, group_name) {
            proof {
                assert(order =~= Seq::empty());
                assert(seen.union(order.to_set()) =~= seen);
            }
            return None;
        }
        push_unique(visited, group_name);
        let ghost entered = seen.insert(name);
        match self.find_group(group_name) {
            None => {
                proof {
                    assert(order =~= seq![name]);
                    lemma_single_to_set(name);
                    assert(seen.union(order.to_set()) =~= entered);
                    assert(order.drop_first() =~= Seq::empty());
                    assert(first_prefix(groups, order.drop_first()) is None);
                }
                None
            },
            Some(at) => {
                let group = &self.data[at];
                let ghost parents = texts(group.inheritance@);
                proof {
                    let rest = visit_each(groups, parents, entered);
                    assert(order == seq![name] + rest);
                    assert(order[0] == name);
                    assert(order.drop_first() =~= rest);
                }
                match &group.prefix {
                    Some(p) => {
                        return Some(p.clone());
                    },
                    None => {},
                }
                let ghost mut done: Seq<Text> = Seq::empty();
                proof {
                    assert(parents.skip(0) =~= parents);
                    assert(entered.union(done.to_set()) =~= entered);
                    lemma_pending_insert(groups, seen, name);
                    assert(visit_each(groups, parents, entered) =~= done + visit_each(
                        groups,
                        parents.skip(0),
                        entered,
                    ));
                }
                let mut j: usize = 0;
                while j < group.inheritance.len()
                    invariant
                        j <= group.inheritance.len(),
                        groups == self@,
                        groups.dom().finite(),
                        seen == name_set(old(visited)@),
                        parents == texts(group.inheritance@),
                        pending(groups, entered) < pending(groups, seen),
                        visit_each(groups, parents, entered) == done + visit_each(
                            groups,
                            parents.skip(j as int),
                            name_set(visited@),
                        ),
                        name_set(visited@) == entered.union(done.to_set()),
                        first_prefix(groups, done) is None,
                        order == visit(groups, group_name@, seen),
                        first_prefix(groups, order) == first_prefix(
                            groups,
                            visit_each(groups, parents, entered),
                        ),
                    decreases group.inheritance.len() - j,
                {
                    let ghost now = name_set(visited@);
                    let ghost first = visit(groups, parents[j as int], now);
                    proof {
                        lemma_pending_grows(groups, entered, now);
                    }
                    let hit = self.find_group_prefix(&group.inheritance[j], visited);
                    proof {
                        let rest = parents.skip(j as int);
                        assert(rest[0] == parents[j as int]);
                        assert(rest.drop_first() =~= parents.skip(j + 1));
                        let tail = visit_each(groups, parents.skip(j + 1), now.union(first.to_set()));
                        assert(visit_each(groups, rest, now) == first + tail);
                        assert(done + (first + tail) =~= (done + first) + tail);
                        lemma_first_prefix_add(groups, done, first);
                        lemma_first_prefix_add(groups, done + first, tail);
                    }
                    if hit.is_some() {
                        return hit;
                    }
                    proof {
                        vstd::seq_lib::seq_to_set_distributes_over_add(done, first);
                        assert(name_set(visited@) =~= entered.union((done + first).to_set()));
                        done = done + first;
                    }
                    j = j + 1;
                }
                proof {
                    assert(parents.skip(parents.len() as int) =~= Seq::<Text>::empty());
                    assert(visit_each(groups, parents, entered) =~= done);
                    vstd::seq_lib::seq_to_set_distributes_over_add(seq![name], done);
                    lemma_single_to_set(name);
                    assert(name_set(visited@) =~= seen.union(order.to_set()));
                }
                None
            },
        }
    }

    /// The prefix of the group `group_name`: its own, or else the first that a
    /// depth-first search through its parents, in the order in which they are
    /// listed, comes upon.  No name is searched twice.
    pub fn resolve_prefix(&self, group_name: &str) -> (r: Option<String>)
        ensures
            opt_text(r) == group_prefix(self@, group_name@),
    {
        let mut visited: Vec<String> = Vec::new();
        let start = String::from_str(group_name);
        proof {
            assert(name_set(visited@) =~= Set::empty());
        }
        self.find_group_prefix(&start, &mut visited)
    }
}

} // verus!
