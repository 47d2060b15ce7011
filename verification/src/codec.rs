//! The two documents in which a store is kept: what a record that leaves
//! fields out stands for, how a store is made from documents, and which
//! documents are written for a store.

use crate::graph::Groups;
use crate::groups::{builtin_groups, with_default, GroupTable};
use crate::ident::{format_uuid, parse_uuid, uuid_refusal, uuid_text, uuid_value};
use crate::model::{
    builtin_default_group, default_group, default_group_name, Group, GroupView, PlayerData,
    PlayerView,
};
use crate::resolve::Players;
use crate::store::{players_of, PermissionStore};
use crate::text::{lemma_texts_push, opt_text, texts, Text};
use std::collections::HashMap;
use std::path::PathBuf;
use vstd::prelude::*;
use vstd::std_specs::iter::IteratorSpec;
use vstd::string::StringExecFns;

verus! {

broadcast use vstd::std_specs::hash::group_hash_axioms;

/// A group as a document holds it: each field may be left out.
#[derive(Debug, Clone, PartialEq, Eq)]
pub struct GroupRecord {
    pub permissions: Option<Vec<String>>,
    pub inheritance: Option<Vec<String>>,
    pub prefix: Option<String>,
}

/// A player as a document holds it: each field may be left out.
#[derive(Debug, Clone, PartialEq, Eq)]
pub struct PlayerRecord {
    pub username: Option<String>,
    pub group: Option<String>,
    pub extra_permissions: Option<Vec<String>>,
    pub denied_permissions: Option<Vec<String>>,
    pub prefix: Option<String>,
}

/// The document of the groups, each record under the name of its group, and
/// the document of the players, each record under the text of the player's
/// identifier.
#[derive(Debug, Clone, PartialEq, Eq)]
pub struct StoreDocuments {
    pub groups: Vec<(String, GroupRecord)>,
    pub players: Vec<(String, PlayerRecord)>,
}

/// The texts of a list that may be left out: none where it is.
pub open spec fn list_or_empty(list: Option<Vec<String>>) -> Seq<Text> {
    match list {
        Some(v) => texts(v@),
        None => Seq::empty(),
    }
}

/// The group that a record stands for: a list left out is empty.
pub open spec fn group_of_record(record: GroupRecord) -> GroupView {
    GroupView {
        permissions: list_or_empty(record.permissions),
        inheritance: list_or_empty(record.inheritance),
        prefix: opt_text(record.prefix),
    }
}

/// The player that a record stands for: a list left out is empty, a name
/// left out is the empty text, and a group left out is the default group.
pub open spec fn player_of_record(record: PlayerRecord) -> PlayerView {
    PlayerView {
        username: match record.username {
            Some(s) => s@,
            None => Seq::empty(),
        },
        group: match record.group {
            Some(s) => s@,
            None => default_group_name(),
        },
        extra_permissions: list_or_empty(record.extra_permissions),
        denied_permissions: list_or_empty(record.denied_permissions),
        prefix: opt_text(record.prefix),
    }
}

/// The groups that a document gives.  Of two records under one name the
/// later counts.
pub open spec fn groups_from_document(doc: Seq<(String, GroupRecord)>) -> Groups
    decreases doc.len(),
{
    if doc.len() == 0 {
        Map::empty()
    } else {
        groups_from_document(doc.drop_last()).insert(doc.last().0@, group_of_record(doc.last().1))
    }
}

/// Every key of the document is the text of an identifier.
pub open spec fn keys_valid(doc: Seq<(String, PlayerRecord)>) -> bool {
    forall|i: int| 0 <= i < doc.len() ==> uuid_value((#[trigger] doc[i]).0@) is Some
}

/// The players that a document gives, where each key is the text of an
/// identifier.  Of two records for one identifier the later counts.
pub open spec fn players_from_document(doc: Seq<(String, PlayerRecord)>) -> Players
    decreases doc.len(),
{
    if doc.len() == 0 {
        Map::empty()
    } else {
        players_from_document(doc.drop_last()).insert(
            uuid_value(doc.last().0@).unwrap(),
            player_of_record(doc.last().1),
        )
    }
}

/// The groups that a store is given: those of the document, and the
/// built-in default group where the document has no default group or where
/// there is no document.
pub open spec fn loaded_groups(doc: Option<Vec<(String, GroupRecord)>>) -> Groups {
    match doc {
        Some(d) => with_default(groups_from_document(d@)),
        None => builtin_groups(),
    }
}

/// The players that a store is given: those of the document, or none where
/// there is no document.
pub open spec fn loaded_players(doc: Option<Vec<(String, PlayerRecord)>>) -> Players {
    match doc {
        Some(d) => players_from_document(d@),
        None => Map::empty(),
    }
}

/// How the complaint about a key that is no identifier begins.
pub open spec fn invalid_uuid_notice(key: Text) -> Text {
    "Invalid UUID '"@ + key + "': "@
}

/// The complaint about the key `key`, which is no identifier: the notice
/// that names the key, then the words of the reader of identifiers.
pub open spec fn invalid_uuid_text(key: Text) -> Text {
    invalid_uuid_notice(key) + uuid_refusal(key)
}

/// The place of the first key of the document that is no identifier, or the
/// length of the document where every key is one.
pub open spec fn first_invalid(doc: Seq<(String, PlayerRecord)>) -> int
    decreases doc.len(),
{
    if doc.len() == 0 {
        0
    } else if uuid_value(doc[0].0@) is None {
        0
    } else {
        1 + first_invalid(doc.drop_first())
    }
}

/// The record has every field that a document always writes.
pub open spec fn group_record_full(record: GroupRecord) -> bool {
    record.permissions is Some && record.inheritance is Some
}

/// The record has every field that a document always writes.
pub open spec fn player_record_full(record: PlayerRecord) -> bool {
    &&& record.username is Some
    &&& record.group is Some
    &&& record.extra_permissions is Some
    &&& record.denied_permissions is Some
}

/// `doc` is a document written for `groups`: one full record for each group,
/// under its name.
pub open spec fn groups_written(groups: Groups, doc: Seq<(String, GroupRecord)>) -> bool {
    &&& forall|i: int|
        0 <= i < doc.len() ==> {
            &&& groups.contains_key((#[trigger] doc[i]).0@)
            &&& groups[doc[i].0@] == group_of_record(doc[i].1)
            &&& group_record_full(doc[i].1)
        }
    &&& forall|i: int, j: int|
        0 <= i < doc.len() && 0 <= j < doc.len() && i != j ==> (#[trigger] doc[i]).0@ != (
        #[trigger] doc[j]).0@
    &&& forall|name: Text| #[trigger]
        groups.contains_key(name) ==> exists|i: int|
            0 <= i < doc.len() && (#[trigger] doc[i]).0@ == name
}

/// `doc` is a document written for `players`: one full record for each
/// player, under the text of the player's identifier.
pub open spec fn players_written(players: Players, doc: Seq<(String, PlayerRecord)>) -> bool {
    &&& forall|i: int|
        0 <= i < doc.len() ==> {
            &&& uuid_value((#[trigger] doc[i]).0@) matches Some(id)
            &&& players.contains_key(id)
            &&& doc[i].0@ == uuid_text(id)
            &&& players[id] == player_of_record(doc[i].1)
            &&& player_record_full(doc[i].1)
        }
    &&& forall|i: int, j: int|
        0 <= i < doc.len() && 0 <= j < doc.len() && i != j ==> uuid_value((#[trigger] doc[i]).0@)
            != uuid_value((#[trigger] doc[j]).0@)
    &&& forall|id: u128| #[trigger]
        players.contains_key(id) ==> exists|i: int|
            0 <= i < doc.len() && uuid_value((#[trigger] doc[i]).0@) == Some(id)
}

/// `first_invalid` is the place `at` where the key at `at` is no identifier
/// and every key before it is one.
pub proof fn lemma_first_invalid(doc: Seq<(String, PlayerRecord)>, at: int)
    requires
        0 <= at < doc.len(),
        uuid_value(doc[at].0@) is None,
        forall|j: int| 0 <= j < at ==> uuid_value((#[trigger] doc[j]).0@) is Some,
    ensures
        first_invalid(doc) == at,
        !keys_valid(doc),
    decreases at,
{
    if at > 0 {
        let rest = doc.drop_first();
        assert(uuid_value(doc[0].0@) is Some);
        assert(rest[at - 1] == doc[at]);
        assert forall|j: int| 0 <= j < at - 1 implies uuid_value((#[trigger] rest[j]).0@)
            is Some by {
            assert(rest[j] == doc[j + 1]);
        }
        lemma_first_invalid(rest, at - 1);
    }
}

/// A copy of a list of strings.
pub fn copy_strings(list: &Vec<String>) -> (r: Vec<String>)
    ensures
        texts(r@) == texts(list@),
{
    let mut out: Vec<String> = Vec::new();
    let mut i: usize = 0;
    while i < list.len()
        invariant
            i <= list.len(),
            texts(out@) == texts(list@).take(i as int),
        decreases list.len() - i,
    {
        let copy = list[i].clone();
        proof {
            lemma_texts_push(out@, copy);
            assert(texts(list@).take(i + 1) =~= texts(list@).take(i as int).push(copy@));
        }
        out.push(copy);
        i = i + 1;
    }
    proof {
        assert(texts(list@).take(list.len() as int) =~= texts(list@));
    }
    out
}

/// A copy of a list that may be left out, empty where it is.
fn copy_or_empty(list: &Option<Vec<String>>) -> (r: Vec<String>)
    ensures
        texts(r@) == list_or_empty(*list),
{
    match list {
        Some(v) => copy_strings(v),
        None => {
            let r: Vec<String> = Vec::new();
            assert(texts(r@) =~= Seq::empty());
            r
        },
    }
}

/// A copy of a string that may be left out.
fn copy_opt(s: &Option<String>) -> (r: Option<String>)
    ensures
        opt_text(r) == opt_text(*s),
{
    match s {
        Some(v) => Some(v.clone()),
        None => None,
    }
}

impl Group {
    /// The group that `record` stands for.
    pub fn from_record(record: &GroupRecord) -> (r: Group)
        ensures
            r@ == group_of_record(*record),
    {
        Group {
            permissions: copy_or_empty(&record.permissions),
            inheritance: copy_or_empty(&record.inheritance),
            prefix: copy_opt(&record.prefix),
        }
    }

    /// The record that is written for the group: with both lists, and with
    /// the prefix if there is one.
    pub fn to_record(&self) -> (r: GroupRecord)
        ensures
            group_of_record(r) == self@,
            group_record_full(r),
    {
        GroupRecord {
            permissions: Some(copy_strings(&self.permissions)),
            inheritance: Some(copy_strings(&self.inheritance)),
            prefix: copy_opt(&self.prefix),
        }
    }
}

impl PlayerData {
    /// The player that `record` stands for.
    pub fn from_record(record: &PlayerRecord) -> (r: PlayerData)
        ensures
            r@ == player_of_record(*record),
    {
        PlayerData {
            username: match &record.username {
                Some(s) => s.clone(),
                None => String::new(),
            },
            group: match &record.group {
                Some(s) => s.clone(),
                None => default_group(),
            },
            extra_permissions: copy_or_empty(&record.extra_permissions),
            denied_permissions: copy_or_empty(&record.denied_permissions),
            prefix: copy_opt(&record.prefix),
        }
    }

    /// The record that is written for the player: with name, group and both
    /// lists, and with the prefix if there is one.
    pub fn to_record(&self) -> (r: PlayerRecord)
        ensures
            player_of_record(r) == self@,
            player_record_full(r),
    {
        PlayerRecord {
            username: Some(self.username.clone()),
            group: Some(self.group.clone()),
            extra_permissions: Some(copy_strings(&self.extra_permissions)),
            denied_permissions: Some(copy_strings(&self.denied_permissions)),
            prefix: copy_opt(&self.prefix),
        }
    }
}

/// The groups that the document of groups gives.
fn groups_from(doc: &Vec<(String, GroupRecord)>) -> (r: GroupTable)
    ensures
        r@ == groups_from_document(doc@),
{
    let mut table = GroupTable::new();
    let mut i: usize = 0;
    while i < doc.len()
        invariant
            i <= doc.len(),
            table@ == groups_from_document(doc@.take(i as int)),
        decreases doc.len() - i,
    {
        proof {
            assert(doc@.take(i + 1).drop_last() =~= doc@.take(i as int));
            assert(doc@.take(i + 1).last() == doc@[i as int]);
        }
        let name = doc[i].0.clone();
        let group = Group::from_record(&doc[i].1);
        table.insert(name, group);
        i = i + 1;
    }
    proof {
        assert(doc@.take(doc.len() as int) =~= doc@);
    }
    table
}

/// The complaint about the key `key`, which is no identifier, with what the
/// reader of identifiers said of it.
fn invalid_uuid_message(key: &str, detail: &str) -> (r: String)
    ensures
        r@ == invalid_uuid_notice(key@) + detail@,
{
    let mut out = String::from_str("Invalid UUID '");
    out.append(key);
    out.append("': ");
    out.append(detail);
    out
}

impl PermissionStore {
    /// The store kept at `data_folder`, made from the documents found there.
    /// The store always has a default group: that of the document of groups,
    /// or else the built-in one.  Without a document of players it has no
    /// players.  A key of the document of players that is no identifier is
    /// an error, which names the first such key.
    pub fn load(
        data_folder: PathBuf,
        groups: Option<Vec<(String, GroupRecord)>>,
        players: Option<Vec<(String, PlayerRecord)>>,
    ) -> (r: Result<PermissionStore, String>)
        ensures
            match r {
                Ok(store) => {
                    &&& players matches Some(d) ==> keys_valid(d@)
                    &&& store.groups() == loaded_groups(groups)
                    &&& store.has_default()
                    &&& store.players() == loaded_players(players)
                    &&& store.data_folder == data_folder
                },
                Err(message) => {
                    &&& players matches Some(d)
                    &&& !keys_valid(d@)
                    &&& 0 <= first_invalid(d@) < d.len()
                    &&& message@ == invalid_uuid_text(d[first_invalid(d@)].0@)
                },
            },
    {
        let mut table = match &groups {
            Some(doc) => groups_from(doc),
            None => GroupTable::new(),
        };
        table.ensure_default();
        let mut records: HashMap<u128, PlayerData> = HashMap::new();
        match &players {
            Some(doc) => {
                let mut i: usize = 0;
                proof {
                    assert(players_of(records@) =~= players_from_document(doc@.take(0)));
                }
                while i < doc.len()
                    invariant
                        i <= doc.len(),
                        players matches Some(d) && d@ == doc@,
                        forall|j: int| 0 <= j < i ==> uuid_value((#[trigger] doc@[j]).0@) is Some,
                        players_of(records@) == players_from_document(doc@.take(i as int)),
                    decreases doc.len() - i,
                {
                    proof {
                        assert(doc@.take(i + 1).drop_last() =~= doc@.take(i as int));
                        assert(doc@.take(i + 1).last() == doc@[i as int]);
                    }
                    match parse_uuid(doc[i].0.as_str()) {
                        Ok(id) => {
                            let data = PlayerData::from_record(&doc[i].1);
                            let ghost before = records@;
                            records.insert(id, data);
                            proof {
                                assert(players_of(before.insert(id, data)) =~= players_of(
                                    before,
                                ).insert(id, data@));
                            }
                        },
                        Err(words) => {
                            proof {
                                lemma_first_invalid(doc@, i as int);
                            }
                            return Err(
                                invalid_uuid_message(doc[i].0.as_str(), words.as_str()),
                            );
                        },
                    }
                    i = i + 1;
                }
                proof {
                    assert(doc@.take(doc.len() as int) =~= doc@);
                }
            },
            None => {
                proof {
                    assert(players_of(records@) =~= Map::<u128, PlayerView>::empty());
                }
            },
        }
        Ok(PermissionStore { data_folder, groups: table, players: records })
    }

    /// The documents that are written for the store: a full record for each
    /// group under its name, and a full record for each player under the text
    /// of the player's identifier.
    pub fn save(&self) -> (r: StoreDocuments)
        ensures
            groups_written(self.groups(), r.groups@),
            players_written(self.players(), r.players@),
    {
        let names = self.groups.names();
        let mut groups: Vec<(String, GroupRecord)> = Vec::new();
        let mut i: usize = 0;
        while i < names.len()
            invariant
                i <= names.len(),
                texts(names@).no_duplicates(),
                texts(names@).to_set() == self.groups().dom(),
                groups.len() == i,
                forall|k: int|
                    0 <= k < i ==> {
                        &&& (#[trigger] groups@[k]).0@ == texts(names@)[k]
                        &&& self.groups()[groups@[k].0@] == group_of_record(groups@[k].1)
                        &&& group_record_full(groups@[k].1)
                    },
            decreases names.len() - i,
        {
            proof {
                assert(texts(names@).contains(texts(names@)[i as int]));
                assert(texts(names@).to_set().contains(names@[i as int]@));
            }
            match self.groups.get(names[i].as_str()) {
                Some(group) => {
                    let record = group.to_record();
                    groups.push((names[i].clone(), record));
                },
                None => {
                    assert(false);
                },
            }
            i = i + 1;
        }
        proof {
            let all = texts(names@);
            assert forall|name: Text| #[trigger]
                self.groups().contains_key(name) implies exists|k: int|
                0 <= k < groups@.len() && (#[trigger] groups@[k]).0@ == name by {
                assert(all.to_set().contains(name));
                assert(all.contains(name));
                let k = choose|k: int| 0 <= k < all.len() && all[k] == name;
                assert(groups@[k].0@ == name);
            }
            assert forall|k: int| 0 <= k < groups@.len() implies self.groups().contains_key(
                (#[trigger] groups@[k]).0@,
            ) by {
                assert(all.contains(all[k]));
                assert(all.to_set().contains(all[k]));
            }
        }
        let mut players: Vec<(String, PlayerRecord)> = Vec::new();
        for entry in it: self.players.iter()
            invariant
                it.seq() == vstd::std_specs::hash::spec_hash_map_iter(&self.players).remaining(),
                players.len() == it.index(),
                forall|k: int|
                    0 <= k < it.index() ==> {
                        &&& uuid_value((#[trigger] players@[k]).0@) == Some(*it.seq()[k].0)
                        &&& players@[k].0@ == uuid_text(*it.seq()[k].0)
                        &&& it.seq()[k].1@ == player_of_record(players@[k].1)
                        &&& player_record_full(players@[k].1)
                    },
        {
            let key = format_uuid(*entry.0);
            let record = entry.1.to_record();
            players.push((key, record));
        }
        proof {
            let all = vstd::std_specs::hash::spec_hash_map_iter(&self.players).remaining();
            let held = self.players@;
            assert(all.no_duplicates());
            assert forall|k: int| 0 <= k < all.len() implies held.contains_key(*all[k].0)
                && held[*all[k].0] == *all[k].1 by {}
            assert forall|a: int, b: int|
                0 <= a < all.len() && 0 <= b < all.len() && a != b implies *all[a].0
                != *all[b].0 by {
                if *all[a].0 == *all[b].0 {
                    assert(held.contains_key(*all[a].0));
                    assert(held[*all[a].0] == *all[a].1);
                    assert(held[*all[b].0] == *all[b].1);
                    assert(all[a] == all[b]);
                }
            }
            assert forall|id: u128| #[trigger]
                self.players().contains_key(id) implies exists|k: int|
                0 <= k < players@.len() && uuid_value((#[trigger] players@[k]).0@) == Some(
                    id,
                ) by {
                assert(held.contains_key(id));
                assert(all.contains((&id, &held[id])));
                let k = choose|k: int| 0 <= k < all.len() && all[k] == (&id, &held[id]);
                assert(uuid_value(players@[k].0@) == Some(id));
            }
        }
        StoreDocuments { groups, players }
    }
}

/// Written and read again, the groups are the same: the document written for
/// some groups gives those groups.
pub proof fn lemma_groups_round_trip(groups: Groups, doc: Seq<(String, GroupRecord)>)
    requires
        groups_written(groups, doc),
    ensures
        groups_from_document(doc) == groups,
{
    lemma_groups_read(doc, doc.len() as int);
    assert(doc.take(doc.len() as int) =~= doc);
    let read = groups_from_document(doc);
    assert forall|name: Text| read.contains_key(name) <==> groups.contains_key(name) by {
        if read.contains_key(name) {
            let i = choose|i: int| 0 <= i < doc.len() && (#[trigger] doc[i]).0@ == name;
            assert(groups.contains_key(doc[i].0@));
        }
        if groups.contains_key(name) {
            let i = choose|i: int| 0 <= i < doc.len() && (#[trigger] doc[i]).0@ == name;
            assert(read.contains_key(doc[i].0@));
        }
    }
    assert forall|name: Text| read.contains_key(name) implies read[name] == groups[name] by {
        let i = choose|i: int| 0 <= i < doc.len() && (#[trigger] doc[i]).0@ == name;
        assert(read[doc[i].0@] == group_of_record(doc[i].1));
    }
    assert(read =~= groups);
}

/// What the first `upto` records of a document without a name twice give:
/// under each of their names the group of its record, and nothing else.
proof fn lemma_groups_read(doc: Seq<(String, GroupRecord)>, upto: int)
    requires
        0 <= upto <= doc.len(),
        forall|i: int, j: int|
            0 <= i < doc.len() && 0 <= j < doc.len() && i != j ==> (#[trigger] doc[i]).0@ != (
            #[trigger] doc[j]).0@,
    ensures
        forall|name: Text|
            groups_from_document(doc.take(upto)).contains_key(name) <==> exists|i: int|
                0 <= i < upto && (#[trigger] doc[i]).0@ == name,
        forall|i: int|
            0 <= i < upto ==> groups_from_document(doc.take(upto)).contains_key(
                (#[trigger] doc[i]).0@,
            ) && groups_from_document(doc.take(upto))[doc[i].0@] == group_of_record(doc[i].1),
    decreases upto,
{
    let part = doc.take(upto);
    let read = groups_from_document(part);
    if upto == 0 {
    } else {
        lemma_groups_read(doc, upto - 1);
        assert(part.drop_last() =~= doc.take(upto - 1));
        assert(part.last() == doc[upto - 1]);
        let before = groups_from_document(doc.take(upto - 1));
        assert(read == before.insert(doc[upto - 1].0@, group_of_record(doc[upto - 1].1)));
        assert forall|name: Text| read.contains_key(name) <==> exists|i: int|
            0 <= i < upto && (#[trigger] doc[i]).0@ == name by {
            if read.contains_key(name) {
                if name == doc[upto - 1].0@ {
                    assert(doc[upto - 1].0@ == name);
                } else {
                    assert(before.contains_key(name));
                    let i = choose|i: int| 0 <= i < upto - 1 && (#[trigger] doc[i]).0@ == name;
                    assert(doc[i].0@ == name);
                }
            }
            if exists|i: int| 0 <= i < upto && (#[trigger] doc[i]).0@ == name {
                let i = choose|i: int| 0 <= i < upto && (#[trigger] doc[i]).0@ == name;
                if i < upto - 1 {
                    assert(before.contains_key(doc[i].0@));
                }
            }
        }
        assert forall|i: int| 0 <= i < upto implies read.contains_key((#[trigger] doc[i]).0@)
            && read[doc[i].0@] == group_of_record(doc[i].1) by {
            if i < upto - 1 {
                assert(before.contains_key(doc[i].0@));
                assert(doc[i].0@ != doc[upto - 1].0@);
            }
        }
    }
}

/// Written and read again, the players are the same: every key of the
/// document written for some players is the text of an identifier, and the
/// document gives those players.
pub proof fn lemma_players_round_trip(players: Players, doc: Seq<(String, PlayerRecord)>)
    requires
        players_written(players, doc),
    ensures
        keys_valid(doc),
        players_from_document(doc) == players,
{
    lemma_players_read(doc, doc.len() as int);
    assert(doc.take(doc.len() as int) =~= doc);
    let read = players_from_document(doc);
    assert forall|id: u128| read.contains_key(id) <==> players.contains_key(id) by {
        if read.contains_key(id) {
            let i = choose|i: int|
                0 <= i < doc.len() && uuid_value((#[trigger] doc[i]).0@) == Some(id);
            assert(players.contains_key(uuid_value(doc[i].0@).unwrap()));
        }
        if players.contains_key(id) {
            let i = choose|i: int|
                0 <= i < doc.len() && uuid_value((#[trigger] doc[i]).0@) == Some(id);
            assert(read.contains_key(uuid_value(doc[i].0@).unwrap()));
        }
    }
    assert forall|id: u128| read.contains_key(id) implies read[id] == players[id] by {
        let i = choose|i: int|
            0 <= i < doc.len() && uuid_value((#[trigger] doc[i]).0@) == Some(id);
        assert(read[uuid_value(doc[i].0@).unwrap()] == player_of_record(doc[i].1));
    }
    assert(read =~= players);
}

/// What the first `upto` records of a document without an identifier twice
/// give: for each of their identifiers the player of its record, and nothing
/// else.
proof fn lemma_players_read(doc: Seq<(String, PlayerRecord)>, upto: int)
    requires
        0 <= upto <= doc.len(),
        keys_valid(doc),
        forall|i: int, j: int|
            0 <= i < doc.len() && 0 <= j < doc.len() && i != j ==> uuid_value(
                (#[trigger] doc[i]).0@,
            ) != uuid_value((#[trigger] doc[j]).0@),
    ensures
        forall|id: u128|
            players_from_document(doc.take(upto)).contains_key(id) <==> exists|i: int|
                0 <= i < upto && uuid_value((#[trigger] doc[i]).0@) == Some(id),
        forall|i: int|
            0 <= i < upto ==> players_from_document(doc.take(upto)).contains_key(
                uuid_value((#[trigger] doc[i]).0@).unwrap(),
            ) && players_from_document(doc.take(upto))[uuid_value(doc[i].0@).unwrap()]
                == player_of_record(doc[i].1),
    decreases upto,
{
    let part = doc.take(upto);
    let read = players_from_document(part);
    if upto == 0 {
    } else {
        lemma_players_read(doc, upto - 1);
        assert(part.drop_last() =~= doc.take(upto - 1));
        assert(part.last() == doc[upto - 1]);
        let before = players_from_document(doc.take(upto - 1));
        let last = uuid_value(doc[upto - 1].0@).unwrap();
        assert(read == before.insert(last, player_of_record(doc[upto - 1].1)));
        assert forall|id: u128| read.contains_key(id) <==> exists|i: int|
            0 <= i < upto && uuid_value((#[trigger] doc[i]).0@) == Some(id) by {
            if read.contains_key(id) {
                if id == last {
                    assert(uuid_value(doc[upto - 1].0@) == Some(id));
                } else {
                    assert(before.contains_key(id));
                    let i = choose|i: int|
                        0 <= i < upto - 1 && uuid_value((#[trigger] doc[i]).0@) == Some(id);
                    assert(uuid_value(doc[i].0@) == Some(id));
                }
            }
            if exists|i: int| 0 <= i < upto && uuid_value((#[trigger] doc[i]).0@) == Some(id) {
                let i = choose|i: int|
                    0 <= i < upto && uuid_value((#[trigger] doc[i]).0@) == Some(id);
                if i < upto - 1 {
                    assert(before.contains_key(uuid_value(doc[i].0@).unwrap()));
                }
            }
        }
        assert forall|i: int| 0 <= i < upto implies read.contains_key(
            uuid_value((#[trigger] doc[i]).0@).unwrap(),
        ) && read[uuid_value(doc[i].0@).unwrap()] == player_of_record(doc[i].1) by {
            if i < upto - 1 {
                assert(before.contains_key(uuid_value(doc[i].0@).unwrap()));
                assert(uuid_value(doc[i].0@) != uuid_value(doc[upto - 1].0@));
            }
        }
    }
}

/// Saved and loaded again, a store is the same: the documents written for a
/// store with a default group are accepted when they are read, and give its
/// groups and its players.
pub proof fn law_round_trip(groups: Groups, players: Players, documents: StoreDocuments)
    requires
        groups.contains_key(default_group_name()),
        groups_written(groups, documents.groups@),
        players_written(players, documents.players@),
    ensures
        keys_valid(documents.players@),
        loaded_groups(Some(documents.groups)) == groups,
        loaded_players(Some(documents.players)) == players,
{
    lemma_groups_round_trip(groups, documents.groups@);
    lemma_players_round_trip(players, documents.players@);
}

/// A store that was loaded has a default group, whatever the documents
/// hold: the one of the document of groups as it stands there, or else the
/// built-in one with its two permissions beside the groups of the document.
pub proof fn law_loaded_has_default(doc: Option<Vec<(String, GroupRecord)>>)
    ensures
        loaded_groups(doc).contains_key(default_group_name()),
        match doc {
            Some(d) => {
                let read = groups_from_document(d@);
                if read.contains_key(default_group_name()) {
                    loaded_groups(doc) == read
                } else {
                    loaded_groups(doc) == read.insert(
                        default_group_name(),
                        builtin_default_group(),
                    )
                }
            },
            None => loaded_groups(doc) == builtin_groups(),
        },
        loaded_players(None) == Map::<u128, PlayerView>::empty(),
{
}

} // verus!
