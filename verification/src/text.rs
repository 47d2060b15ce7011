//! Text values and the lists of them that the store keeps and reports.

use vstd::prelude::*;
use vstd::string::StringExecFns;

verus! {

broadcast use vstd::string::group_string_axioms;

/// A piece of text as the contracts see it.
pub type Text = Seq<char>;

/// The texts held by a list of strings, in order.
pub open spec fn texts(items: Seq<String>) -> Seq<Text> {
    Seq::new(items.len(), |i: int| items[i]@)
}

/// The text of an optional string.
pub open spec fn opt_text(item: Option<String>) -> Option<Text> {
    match item {
        Some(s) => Some(s@),
        None => None,
    }
}

/// Position of the first entry of `items` equal to `item`, or the length of
/// `items` when there is none.
pub open spec fn first_index(items: Seq<Text>, item: Text) -> int
    decreases items.len(),
{
    if items.len() == 0 {
        0
    } else if items[0] == item {
        0
    } else {
        1 + first_index(items.drop_first(), item)
    }
}

/// `first_index` is the least position that holds `item`.
pub proof fn lemma_first_index(items: Seq<Text>, item: Text)
    ensures
        0 <= first_index(items, item) <= items.len(),
        first_index(items, item) < items.len() ==> items[first_index(items, item)] == item,
        forall|j: int| 0 <= j < first_index(items, item) ==> items[j] != item,
        first_index(items, item) < items.len() <==> items.contains(item),
    decreases items.len(),
{
    if items.len() == 0 {
    } else if items[0] == item {
        assert(items.contains(item));
    } else {
        let rest = items.drop_first();
        lemma_first_index(rest, item);
        let k = first_index(rest, item);
        assert forall|j: int| 0 <= j < 1 + k implies items[j] != item by {
            if j > 0 {
                assert(items[j] == rest[j - 1]);
            }
        }
        if k < rest.len() {
            assert(items[1 + k] == rest[k]);
            assert(items.contains(item));
        } else {
            if items.contains(item) {
                let j = choose|j: int| 0 <= j < items.len() && items[j] == item;
                assert(rest[j - 1] == items[j]);
                assert(rest.contains(item));
            }
        }
    }
}

/// Finds the first entry of `items` whose text is that of `item`.
pub fn position_of(items: &Vec<String>, item: &String) -> (r: Option<usize>)
    ensures
        match r {
            Some(at) => texts(items@).contains(item@) && at == first_index(texts(items@), item@),
            None => !texts(items@).contains(item@),
        },
{
    let ghost all = texts(items@);
    let mut i: usize = 0;
    while i < items.len()
        invariant
            i <= items.len(),
            all == texts(items@),
            forall|j: int| 0 <= j < i ==> all[j] != item@,
        decreases items.len() - i,
    {
        if items[i] == *item {
            proof {
                lemma_first_index(all, item@);
                assert(all[i as int] == item@);
                if first_index(all, item@) > i {
                    assert(all[i as int] != item@);
                }
            }
            return Some(i);
        }
        i = i + 1;
    }
    proof {
        lemma_first_index(all, item@);
    }
    None
}

/// Whether some entry of `items` has the text of `item`.
pub fn contains_text(items: &Vec<String>, item: &String) -> (r: bool)
    ensures
        r == texts(items@).contains(item@),
{
    position_of(items, item).is_some()
}

/// A list of one text holds that text and no other.
pub proof fn lemma_single_to_set(item: Text)
    ensures
        seq![item].to_set() == set![item],
{
    let one = seq![item];
    assert(one[0] == item);
    assert forall|x: Text| one.to_set().contains(x) <==> set![item].contains(x) by {
        if one.contains(x) {
            let i = choose|i: int| 0 <= i < one.len() && one[i] == x;
        }
    }
    assert(one.to_set() =~= set![item]);
}

/// Adding a string to a list adds its text to the texts of the list.
pub proof fn lemma_texts_push(items: Seq<String>, item: String)
    ensures
        texts(items.push(item)) == texts(items).push(item@),
{
    assert(texts(items.push(item)) =~= texts(items).push(item@));
}

/// Adds `item` to `list` unless the list has its text already.
pub fn push_unique(list: &mut Vec<String>, item: &String)
    ensures
        texts(final(list)@) == (if texts(old(list)@).contains(item@) {
            texts(old(list)@)
        } else {
            texts(old(list)@).push(item@)
        }),
        texts(final(list)@).to_set() == texts(old(list)@).to_set().insert(item@),
        texts(old(list)@).no_duplicates() ==> texts(final(list)@).no_duplicates(),
{
    let ghost before = texts(list@);
    if !contains_text(list, item) {
        let copy = item.clone();
        proof {
            lemma_texts_push(list@, copy);
        }
        list.push(copy);
        proof {
            let after = texts(list@);
            assert(after == before.push(item@));
            assert(after.to_set() =~= before.to_set().insert(item@)) by {
                assert forall|x: Text| after.contains(x) <==> before.contains(x) || x
                    == item@ by {
                    if after.contains(x) {
                        let i = choose|i: int| 0 <= i < after.len() && after[i] == x;
                        if i < before.len() {
                            assert(before[i] == x);
                        }
                    }
                    if before.contains(x) {
                        let i = choose|i: int| 0 <= i < before.len() && before[i] == x;
                        assert(after[i] == x);
                    }
                    if x == item@ {
                        assert(after[before.len() as int] == x);
                    }
                }
            }
            if before.no_duplicates() {
                assert forall|i: int, j: int|
                    0 <= i < after.len() && 0 <= j < after.len() && i != j implies after[i]
                    != after[j] by {
                    if i < before.len() {
                        assert(before.contains(after[i]));
                    }
                    if j < before.len() {
                        assert(before.contains(after[j]));
                    }
                }
            }
        }
    } else {
        proof {
            assert(before.to_set() =~= before.to_set().insert(item@));
        }
    }
}

/// The characters of `s`.
pub fn chars_of(s: &str) -> (r: Vec<char>)
    ensures
        r@ == s@,
{
    let mut out: Vec<char> = Vec::new();
    for c in it: s.chars()
        invariant
            out@ == it.seq().take(it.index() as int),
            it.seq() == s@,
    {
        out.push(c);
    }
    proof {
        assert(s@.take(s@.len() as int) =~= s@);
    }
    out
}

/// The order of texts: character by character, by the number of the
/// character, a text before every longer text that begins with it.
pub open spec fn text_le(a: Text, b: Text) -> bool
    decreases a.len(),
{
    if a.len() == 0 {
        true
    } else if b.len() == 0 {
        false
    } else if a[0] != b[0] {
        (a[0] as int) < (b[0] as int)
    } else {
        text_le(a.drop_first(), b.drop_first())
    }
}

/// Of two texts one comes no later than the other.
pub proof fn lemma_text_le_total(a: Text, b: Text)
    ensures
        text_le(a, b) || text_le(b, a),
    decreases a.len(),
{
    if a.len() > 0 && b.len() > 0 {
        if a[0] == b[0] {
            lemma_text_le_total(a.drop_first(), b.drop_first());
        } else {
            assert((a[0] as int) != (b[0] as int));
        }
    }
}

/// What comes no later than a text that comes no later than a third, comes
/// no later than the third.
pub proof fn lemma_text_le_trans(a: Text, b: Text, c: Text)
    requires
        text_le(a, b),
        text_le(b, c),
    ensures
        text_le(a, c),
    decreases a.len(),
{
    if a.len() > 0 && b.len() > 0 && c.len() > 0 && a[0] == b[0] && b[0] == c[0] {
        lemma_text_le_trans(a.drop_first(), b.drop_first(), c.drop_first());
    }
}

/// Two texts of which each comes no later than the other are one text.
pub proof fn lemma_text_le_antisymmetric(a: Text, b: Text)
    requires
        text_le(a, b),
        text_le(b, a),
    ensures
        a == b,
    decreases a.len(),
{
    if a.len() > 0 && b.len() > 0 {
        lemma_text_le_antisymmetric(a.drop_first(), b.drop_first());
        assert(a =~= seq![a[0]] + a.drop_first());
        assert(b =~= seq![b[0]] + b.drop_first());
    } else {
        assert(a =~= b);
    }
}

/// Whether `a` comes no later than `b` in the order of texts.
pub fn text_le_exec(a: &str, b: &str) -> (r: bool)
    ensures
        r == text_le(a@, b@),
{
    let x = chars_of(a);
    let y = chars_of(b);
    let mut i: usize = 0;
    proof {
        assert(x@.skip(0) =~= x@);
        assert(y@.skip(0) =~= y@);
    }
    while i < x.len() && i < y.len()
        invariant
            i <= x.len(),
            i <= y.len(),
            x@ == a@,
            y@ == b@,
            text_le(x@, y@) == text_le(x@.skip(i as int), y@.skip(i as int)),
        decreases x.len() - i,
    {
        proof {
            let p = x@.skip(i as int);
            let q = y@.skip(i as int);
            assert(p[0] == x@[i as int] && q[0] == y@[i as int]);
            assert(p.drop_first() =~= x@.skip(i + 1));
            assert(q.drop_first() =~= y@.skip(i + 1));
        }
        if x[i] != y[i] {
            return x[i] < y[i];
        }
        i = i + 1;
    }
    i == x.len()
}

/// `item` put into `sorted` before the first entry that it comes no later
/// than.
pub open spec fn insert_sorted(sorted: Seq<Text>, item: Text) -> Seq<Text>
    decreases sorted.len(),
{
    if sorted.len() == 0 {
        seq![item]
    } else if text_le(item, sorted[0]) {
        seq![item] + sorted
    } else {
        seq![sorted[0]] + insert_sorted(sorted.drop_first(), item)
    }
}

/// The entries of `items` in the order of texts.
pub open spec fn sorted_texts(items: Seq<Text>) -> Seq<Text>
    decreases items.len(),
{
    if items.len() == 0 {
        Seq::empty()
    } else {
        insert_sorted(sorted_texts(items.drop_last()), items.last())
    }
}

/// Each entry comes no later than the entries after it.
pub open spec fn is_sorted(items: Seq<Text>) -> bool {
    forall|i: int, j: int| 0 <= i <= j < items.len() ==> text_le(items[i], items[j])
}

/// `insert_sorted` puts the item at the first place where it comes no later
/// than the entry that was there.
pub proof fn lemma_insert_sorted_at(sorted: Seq<Text>, item: Text, at: int)
    requires
        0 <= at <= sorted.len(),
        forall|j: int| 0 <= j < at ==> !text_le(item, #[trigger] sorted[j]),
        at < sorted.len() ==> text_le(item, sorted[at]),
    ensures
        insert_sorted(sorted, item) == sorted.insert(at, item),
    decreases sorted.len(),
{
    if sorted.len() == 0 {
        assert(sorted.insert(at, item) =~= seq![item]);
    } else if at == 0 {
        assert(sorted.insert(0, item) =~= seq![item] + sorted);
    } else {
        assert(!text_le(item, sorted[0]));
        let rest = sorted.drop_first();
        assert forall|j: int| 0 <= j < at - 1 implies !text_le(item, #[trigger] rest[j]) by {
            assert(rest[j] == sorted[j + 1]);
        }
        lemma_insert_sorted_at(rest, item, at - 1);
        assert(sorted.insert(at, item) =~= seq![sorted[0]] + rest.insert(at - 1, item));
    }
}

/// A list with one more entry holds that entry once more and the others as
/// often as before.
pub proof fn lemma_multiset_insert(items: Seq<Text>, at: int, item: Text)
    requires
        0 <= at <= items.len(),
    ensures
        items.insert(at, item).to_multiset() == items.to_multiset().insert(item),
{
    broadcast use vstd::seq_lib::group_to_multiset_ensures;

    let more = items.insert(at, item);
    assert(more.remove(at) =~= items);
    assert(more[at] == item);
    vstd::seq_lib::to_multiset_remove(more, at);
    assert(more.contains(item));
    assert(more.to_multiset() =~= items.to_multiset().insert(item));
}

/// Putting an item into a sorted list leaves it sorted, with the item added
/// and nothing else changed.
pub proof fn lemma_insert_sorted(sorted: Seq<Text>, item: Text)
    requires
        is_sorted(sorted),
    ensures
        is_sorted(insert_sorted(sorted, item)),
        insert_sorted(sorted, item).to_multiset() == sorted.to_multiset().insert(item),
        insert_sorted(sorted, item).len() == sorted.len() + 1,
    decreases sorted.len(),
{
    broadcast use vstd::seq_lib::group_to_multiset_ensures;

    let out = insert_sorted(sorted, item);
    if sorted.len() == 0 {
        assert(sorted =~= Seq::empty());
        assert(out =~= Seq::<Text>::empty().push(item));
        lemma_text_le_total(item, item);
    } else if text_le(item, sorted[0]) {
        assert(out =~= sorted.insert(0, item));
        lemma_multiset_insert(sorted, 0, item);
        assert forall|i: int, j: int| 0 <= i <= j < out.len() implies text_le(out[i], out[j]) by {
            if i == 0 && j == 0 {
                lemma_text_le_total(item, item);
            } else if i == 0 {
                assert(out[j] == sorted[j - 1]);
                lemma_text_le_trans(item, sorted[0], sorted[j - 1]);
            } else {
                assert(out[i] == sorted[i - 1] && out[j] == sorted[j - 1]);
            }
        }
    } else {
        let rest = sorted.drop_first();
        assert forall|i: int, j: int| 0 <= i <= j < rest.len() implies text_le(
            rest[i],
            rest[j],
        ) by {
            assert(rest[i] == sorted[i + 1] && rest[j] == sorted[j + 1]);
        }
        lemma_insert_sorted(rest, item);
        let tail = insert_sorted(rest, item);
        assert(out == seq![sorted[0]] + tail);
        assert(out =~= tail.insert(0, sorted[0]));
        lemma_multiset_insert(tail, 0, sorted[0]);
        assert(sorted =~= rest.insert(0, sorted[0]));
        lemma_multiset_insert(rest, 0, sorted[0]);
        assert(out.to_multiset() =~= sorted.to_multiset().insert(item));
        lemma_text_le_total(item, sorted[0]);
        assert forall|i: int, j: int| 0 <= i <= j < out.len() implies text_le(out[i], out[j]) by {
            if i == 0 {
                if j == 0 {
                    lemma_text_le_total(sorted[0], sorted[0]);
                } else {
                    let x = tail[j - 1];
                    assert(out[j] == x);
                    assert(tail.to_multiset().contains(x)) by {
                        assert(tail.contains(x));
                    }
                    if x == item {
                    } else {
                        assert(rest.to_multiset().contains(x));
                        assert(rest.contains(x));
                        let k = choose|k: int| 0 <= k < rest.len() && rest[k] == x;
                        assert(sorted[k + 1] == x);
                    }
                }
            } else {
                assert(out[i] == tail[i - 1] && out[j] == tail[j - 1]);
            }
        }
    }
}

/// `sorted_texts` gives the same entries, as often as they were given, each
/// no later than those after it.
pub proof fn lemma_sorted_texts(items: Seq<Text>)
    ensures
        is_sorted(sorted_texts(items)),
        sorted_texts(items).to_multiset() == items.to_multiset(),
        sorted_texts(items).len() == items.len(),
    decreases items.len(),
{
    broadcast use vstd::seq_lib::group_to_multiset_ensures;

    if items.len() == 0 {
        assert(items =~= Seq::empty());
    } else {
        let front = items.drop_last();
        lemma_sorted_texts(front);
        lemma_insert_sorted(sorted_texts(front), items.last());
        assert(items =~= front.push(items.last()));
    }
}

/// A copy of `items` in the order of texts.
pub fn sorted_copy(items: &Vec<String>) -> (r: Vec<String>)
    ensures
        texts(r@) == sorted_texts(texts(items@)),
{
    let ghost all = texts(items@);
    let mut out: Vec<String> = Vec::new();
    let mut i: usize = 0;
    while i < items.len()
        invariant
            i <= items.len(),
            all == texts(items@),
            texts(out@) == sorted_texts(all.take(i as int)),
        decreases items.len() - i,
    {
        let item = items[i].clone();
        let mut at: usize = 0;
        while at < out.len() && !text_le_exec(item.as_str(), out[at].as_str())
            invariant
                at <= out.len(),
                forall|j: int| 0 <= j < at ==> !text_le(item@, #[trigger] texts(out@)[j]),
            decreases out.len() - at,
        {
            at = at + 1;
        }
        proof {
            let before = texts(out@);
            lemma_insert_sorted_at(before, item@, at as int);
            assert(texts(out@.insert(at as int, item)) =~= before.insert(at as int, item@));
            assert(all.take(i + 1).drop_last() =~= all.take(i as int));
            assert(all.take(i + 1).last() == item@);
        }
        out.insert(at, item);
        i = i + 1;
    }
    proof {
        assert(all.take(all.len() as int) =~= all);
    }
    out
}

/// The entries of `items` one after the other, with `sep` between them.
pub open spec fn joined(items: Seq<Text>, sep: Text) -> Text
    decreases items.len(),
{
    if items.len() == 0 {
        Seq::empty()
    } else if items.len() == 1 {
        items[0]
    } else {
        joined(items.drop_last(), sep) + sep + items.last()
    }
}

/// The entries of `items` with `sep` between them.
pub fn join(items: &Vec<String>, sep: &str) -> (r: String)
    ensures
        r@ == joined(texts(items@), sep@),
{
    let ghost all = texts(items@);
    let mut out = String::new();
    let mut i: usize = 0;
    while i < items.len()
        invariant
            i <= items.len(),
            all == texts(items@),
            out@ == joined(all.take(i as int), sep@),
        decreases items.len() - i,
    {
        proof {
            assert(all.take(i + 1).drop_last() =~= all.take(i as int));
            assert(all.take(i + 1).last() == items[i as int]@);
        }
        if i > 0 {
            out.append(sep);
        } else {
            proof {
                assert(Seq::<char>::empty() + items[0]@ =~= items[0]@);
            }
        }
        out.append(items[i].as_str());
        i = i + 1;
    }
    proof {
        assert(all.take(all.len() as int) =~= all);
    }
    out
}

/// How a list is shown: its entries with a comma and a blank between them,
/// or a word for a list without entries.
pub open spec fn list_text(items: Seq<Text>) -> Text {
    if items.len() == 0 {
        "(none)"@
    } else {
        joined(items, ", "@)
    }
}

/// The text that shows `items` in the order given.
pub fn format_list(items: &Vec<String>) -> (r: String)
    ensures
        r@ == list_text(texts(items@)),
{
    if items.len() == 0 {
        String::from_str("(none)")
    } else {
        join(items, ", ")
    }
}

/// The text that shows `items` in the order of texts.
pub fn format_sorted_list(items: &Vec<String>) -> (r: String)
    ensures
        r@ == list_text(sorted_texts(texts(items@))),
{
    let sorted = sorted_copy(items);
    proof {
        lemma_sorted_texts(texts(items@));
    }
    format_list(&sorted)
}

/// The text of one decimal digit.
pub open spec fn digit_text(d: nat) -> Text {
    if d == 0 {
        "0"@
    } else if d == 1 {
        "1"@
    } else if d == 2 {
        "2"@
    } else if d == 3 {
        "3"@
    } else if d == 4 {
        "4"@
    } else if d == 5 {
        "5"@
    } else if d == 6 {
        "6"@
    } else if d == 7 {
        "7"@
    } else if d == 8 {
        "8"@
    } else {
        "9"@
    }
}

/// The text of a number in decimal digits, without leading zeros.
pub open spec fn decimal_text(n: nat) -> Text
    decreases n,
{
    if n < 10 {
        digit_text(n)
    } else {
        decimal_text(n / 10) + digit_text(n % 10)
    }
}

/// The text of one decimal digit.
fn digit(d: usize) -> (r: &'static str)
    requires
        d < 10,
    ensures
        r@ == digit_text(d as nat),
{
    if d == 0 {
        "0"
    } else if d == 1 {
        "1"
    } else if d == 2 {
        "2"
    } else if d == 3 {
        "3"
    } else if d == 4 {
        "4"
    } else if d == 5 {
        "5"
    } else if d == 6 {
        "6"
    } else if d == 7 {
        "7"
    } else if d == 8 {
        "8"
    } else {
        "9"
    }
}

/// The text of `n` in decimal digits.
pub fn decimal(n: usize) -> (r: String)
    ensures
        r@ == decimal_text(n as nat),
    decreases n,
{
    if n < 10 {
        String::from_str(digit(n))
    } else {
        let mut out = decimal(n / 10);
        out.append(digit(n % 10));
        out
    }
}

/// The texts of a list of string slices, in order.
pub open spec fn strs(parts: Seq<&str>) -> Seq<Text> {
    Seq::new(parts.len(), |i: int| parts[i]@)
}

/// The texts of `parts` one after the other.
pub open spec fn glue(parts: Seq<Text>) -> Text
    decreases parts.len(),
{
    if parts.len() == 0 {
        Seq::empty()
    } else {
        glue(parts.drop_last()) + parts.last()
    }
}

/// The strings of `parts` one after the other.
pub fn glued(parts: &Vec<&str>) -> (r: String)
    ensures
        r@ == glue(strs(parts@)),
{
    let ghost all = strs(parts@);
    let mut out = String::new();
    let mut i: usize = 0;
    while i < parts.len()
        invariant
            i <= parts.len(),
            all == strs(parts@),
            out@ == glue(all.take(i as int)),
        decreases parts.len() - i,
    {
        proof {
            assert(all.take(i + 1).drop_last() =~= all.take(i as int));
            assert(all.take(i + 1).last() == parts[i as int]@);
        }
        out.append(parts[i]);
        i = i + 1;
    }
    proof {
        assert(all.take(all.len() as int) =~= all);
    }
    out
}

/// Two lists in which nothing occurs twice and which hold the same texts
/// are the same list once sorted.
pub proof fn lemma_sorted_texts_unique(a: Seq<Text>, b: Seq<Text>)
    requires
        a.no_duplicates(),
        b.no_duplicates(),
        a.to_set() == b.to_set(),
    ensures
        sorted_texts(a) == sorted_texts(b),
{
    broadcast use vstd::seq_lib::group_to_multiset_ensures;

    let leq = |x: Text, y: Text| text_le(x, y);
    lemma_sorted_texts(a);
    lemma_sorted_texts(b);
    a.lemma_multiset_has_no_duplicates();
    b.lemma_multiset_has_no_duplicates();
    assert forall|x: Text| a.to_multiset().count(x) == b.to_multiset().count(x) by {
        assert(a.contains(x) <==> a.to_set().contains(x));
        assert(b.contains(x) <==> b.to_set().contains(x));
    }
    assert(a.to_multiset() =~= b.to_multiset());
    assert(vstd::relations::total_ordering(leq)) by {
        assert forall|x: Text| #[trigger] leq(x, x) by {
            lemma_text_le_total(x, x);
        }
        assert forall|x: Text, y: Text| #[trigger] leq(x, y) && #[trigger] leq(y, x) implies x
            == y by {
            lemma_text_le_antisymmetric(x, y);
        }
        assert forall|x: Text, y: Text, z: Text| #[trigger]
            leq(x, y) && #[trigger] leq(y, z) implies leq(x, z) by {
            lemma_text_le_trans(x, y, z);
        }
        assert forall|x: Text, y: Text| #[trigger] leq(x, y) || #[trigger] leq(y, x) by {
            lemma_text_le_total(x, y);
        }
    }
    let x = sorted_texts(a);
    let y = sorted_texts(b);
    assert(vstd::relations::sorted_by(x, leq));
    assert(vstd::relations::sorted_by(y, leq));
    vstd::seq_lib::lemma_sorted_unique(x, y, leq);
}

/// `list` holds the texts of `items`, each once.
pub open spec fn lists(list: Seq<Text>, items: Set<Text>) -> bool {
    list.no_duplicates() && list.to_set() == items
}

/// The texts of a finite set in the order of texts.
pub open spec fn sorted_set(items: Set<Text>) -> Seq<Text> {
    sorted_texts(choose|list: Seq<Text>| lists(list, items))
}

/// Any list that holds the texts of a set, each once, is the sorted set once
/// sorted.
pub proof fn lemma_sorted_set(list: Seq<Text>)
    requires
        list.no_duplicates(),
    ensures
        sorted_texts(list) == sorted_set(list.to_set()),
{
    let items = list.to_set();
    assert(lists(list, items));
    let chosen = choose|other: Seq<Text>| lists(other, items);
    lemma_sorted_texts_unique(list, chosen);
}

} // verus!
