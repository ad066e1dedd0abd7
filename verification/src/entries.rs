//! Keyed entries: the sequences of `(key, value)` pairs that stand for JSON
//! objects and for the maps of a schema. A lookup finds the first entry with
//! the key; an insertion keeps the keys in strictly increasing order.

use vstd::prelude::*;
use crate::text::str_lt;
use crate::text::str_order;
use crate::text::Order;
use crate::text::lemma_str_lt_transitive;
use crate::text::lemma_str_lt_total;
use crate::text::lemma_order_facts;

verus! {

/// The keys of a sequence of entries, in order.
pub open spec fn keys<V>(es: Seq<(Seq<char>, V)>) -> Seq<Seq<char>> {
    Seq::new(es.len(), |i: int| es[i].0)
}

/// The keys of the entries of a vector, in order.
pub open spec fn entry_keys<V>(es: Seq<(String, V)>) -> Seq<Seq<char>> {
    Seq::new(es.len(), |i: int| es[i].0@)
}

/// The entries of a vector by their views.
pub open spec fn entries_view<V: View>(es: Seq<(String, V)>) -> Seq<(Seq<char>, V::V)> {
    Seq::new(es.len(), |i: int| (es[i].0@, es[i].1@))
}

/// The strings of a vector by their views.
pub open spec fn strings_view(ss: Seq<String>) -> Seq<Seq<char>> {
    Seq::new(ss.len(), |i: int| ss[i]@)
}

/// The first index at or after `start` that holds `key`.
pub open spec fn position_from(ks: Seq<Seq<char>>, key: Seq<char>, start: int) -> Option<int>
    decreases ks.len() - start,
{
    if start < 0 || start >= ks.len() {
        None
    } else if ks[start] == key {
        Some(start)
    } else {
        position_from(ks, key, start + 1)
    }
}

/// The first index that holds `key`.
pub open spec fn position(ks: Seq<Seq<char>>, key: Seq<char>) -> Option<int> {
    position_from(ks, key, 0)
}

/// A key is found exactly if it is among the keys, and then where it is
/// first.
pub proof fn lemma_position(ks: Seq<Seq<char>>, key: Seq<char>, start: int)
    requires
        0 <= start,
    ensures
        position_from(ks, key, start) is Some <==> exists|i: int|
            start <= i < ks.len() && ks[i] == key,
        position_from(ks, key, start) matches Some(i) ==> start <= i < ks.len() && ks[i] == key
            && forall|j: int| start <= j < i ==> ks[j] != key,
    decreases ks.len() - start,
{
    if start < ks.len() && ks[start] != key {
        lemma_position(ks, key, start + 1);
    }
}

/// The value of the first entry with `key`.
pub open spec fn lookup<V>(es: Seq<(Seq<char>, V)>, key: Seq<char>) -> Option<V> {
    match position(keys(es), key) {
        Some(i) => Some(es[i].1),
        None => None,
    }
}

/// The keys are strictly increasing, so that none occurs twice.
pub open spec fn sorted(ks: Seq<Seq<char>>) -> bool {
    forall|i: int, j: int| 0 <= i < j < ks.len() ==> str_lt(#[trigger] ks[i], #[trigger] ks[j])
}

/// Where `key` belongs among `ks`: behind every key that is not above it,
/// counted from the back.
pub open spec fn slot(ks: Seq<Seq<char>>, key: Seq<char>) -> int
    decreases ks.len(),
{
    if ks.len() > 0 && str_lt(key, ks.last()) {
        slot(ks.drop_last(), key)
    } else {
        ks.len() as int
    }
}

/// Whether the key just before its slot is `key` itself.
pub open spec fn present_at_slot(ks: Seq<Seq<char>>, key: Seq<char>) -> bool {
    slot(ks, key) > 0 && ks[slot(ks, key) - 1] == key
}

/// The entries with `key` set to `value`: the entry just before the key's
/// slot is replaced if it has that key, else a new entry goes into the slot.
pub open spec fn insert<V>(es: Seq<(Seq<char>, V)>, key: Seq<char>, value: V) -> Seq<
    (Seq<char>, V),
> {
    let i = slot(keys(es), key);
    if present_at_slot(keys(es), key) {
        es.update(i - 1, (key, value))
    } else {
        es.insert(i, (key, value))
    }
}

/// The strings with `value` among them: unchanged if the string just before
/// its slot is `value`, else with `value` in its slot.
pub open spec fn insert_string(ss: Seq<Seq<char>>, value: Seq<char>) -> Seq<Seq<char>> {
    if present_at_slot(ss, value) {
        ss
    } else {
        ss.insert(slot(ss, value), value)
    }
}

/// The slot lies within the sequence, every key from it on is above `key`,
/// and the key before it is not.
pub proof fn lemma_slot(ks: Seq<Seq<char>>, key: Seq<char>)
    ensures
        0 <= slot(ks, key) <= ks.len(),
        forall|j: int| slot(ks, key) <= j < ks.len() ==> str_lt(key, #[trigger] ks[j]),
        slot(ks, key) > 0 ==> !str_lt(key, ks[slot(ks, key) - 1]),
    decreases ks.len(),
{
    if ks.len() > 0 && str_lt(key, ks.last()) {
        let front = ks.drop_last();
        lemma_slot(front, key);
        assert forall|j: int| slot(ks, key) <= j < ks.len() implies str_lt(
            key,
            #[trigger] ks[j],
        ) by {
            if j < front.len() {
                assert(ks[j] == front[j]);
            }
        }
        if slot(ks, key) > 0 {
            assert(ks[slot(ks, key) - 1] == front[slot(ks, key) - 1]);
        }
    }
}

/// Among sorted keys, every key before the slot is below `key`, but for the
/// one just before it, which may be `key` itself.
pub proof fn lemma_slot_sorted(ks: Seq<Seq<char>>, key: Seq<char>)
    requires
        sorted(ks),
    ensures
        forall|j: int| 0 <= j < slot(ks, key) - 1 ==> str_lt(#[trigger] ks[j], key),
        slot(ks, key) > 0 && !present_at_slot(ks, key) ==> str_lt(ks[slot(ks, key) - 1], key),
        !present_at_slot(ks, key) ==> position(ks, key) is None,
        present_at_slot(ks, key) ==> position(ks, key) == Some(slot(ks, key) - 1),
{
    lemma_slot(ks, key);
    let s = slot(ks, key);
    if s > 0 {
        lemma_str_lt_total(ks[s - 1], key);
        assert forall|j: int| 0 <= j < s - 1 implies str_lt(#[trigger] ks[j], key) by {
            assert(str_lt(ks[j], ks[s - 1]));
            if ks[s - 1] != key {
                lemma_str_lt_transitive(ks[j], ks[s - 1], key);
            }
        }
    }
    lemma_position_sorted(ks, key, 0);
}

/// Among sorted keys a key is found at the place before its slot or nowhere.
proof fn lemma_position_sorted(ks: Seq<Seq<char>>, key: Seq<char>, start: int)
    requires
        sorted(ks),
        0 <= start <= ks.len(),
        start <= slot(ks, key) - 1 || !present_at_slot(ks, key),
    ensures
        !present_at_slot(ks, key) ==> position_from(ks, key, start) is None,
        present_at_slot(ks, key) ==> position_from(ks, key, start) == Some(slot(ks, key) - 1),
    decreases ks.len() - start,
{
    lemma_slot(ks, key);
    let s = slot(ks, key);
    if start < ks.len() {
        if ks[start] == key {
            lemma_order_facts(key, key);
            if start >= s {
                assert(str_lt(key, ks[start]));
            } else if start < s - 1 {
                assert(str_lt(ks[start], ks[s - 1]));
                lemma_str_lt_total(ks[s - 1], key);
                lemma_order_facts(ks[s - 1], key);
                if str_lt(ks[s - 1], key) {
                    lemma_str_lt_transitive(ks[start], ks[s - 1], key);
                }
            }
        } else {
            lemma_position_sorted(ks, key, start + 1);
        }
    }
}

/// Setting a key among sorted entries leaves them sorted.
pub proof fn lemma_insert_sorted<V>(es: Seq<(Seq<char>, V)>, key: Seq<char>, value: V)
    requires
        sorted(keys(es)),
    ensures
        sorted(keys(insert(es, key, value))),
        lookup(insert(es, key, value), key) == Some(value),
{
    let ks = keys(es);
    let s = slot(ks, key);
    let out = insert(es, key, value);
    lemma_slot(ks, key);
    lemma_slot_sorted(ks, key);
    if present_at_slot(ks, key) {
        assert(keys(out) =~= ks);
        assert(out[s - 1].1 == value);
    } else {
        let ko = keys(out);
        assert(ko =~= ks.insert(s, key));
        assert forall|i: int, j: int| 0 <= i < j < ko.len() implies str_lt(
            #[trigger] ko[i],
            #[trigger] ko[j],
        ) by {
            let a = if i < s { i } else { i - 1 };
            let b = if j < s { j } else { j - 1 };
            if i == s {
                assert(ko[j] == ks[b]);
            } else if j == s {
                assert(ko[i] == ks[a]);
            } else {
                assert(ko[i] == ks[a]);
                assert(ko[j] == ks[b]);
            }
        }
        lemma_slot(ko, key);
        lemma_slot_sorted(ko, key);
        lemma_found_where_it_is(ko, key, s);
        assert(out[s].1 == value);
    }
}

/// Among sorted keys the key at an index is found there.
pub proof fn lemma_found_where_it_is(ks: Seq<Seq<char>>, key: Seq<char>, i: int)
    requires
        sorted(ks),
        0 <= i < ks.len(),
        ks[i] == key,
    ensures
        position(ks, key) == Some(i),
{
    lemma_slot(ks, key);
    lemma_slot_sorted(ks, key);
    let s = slot(ks, key);
    lemma_order_facts(key, key);
    if i >= s {
        assert(str_lt(key, ks[i]));
    } else if i < s - 1 {
        assert(str_lt(ks[i], key));
    }
}

/// A key above all sorted keys goes to the end.
pub proof fn lemma_insert_above<V>(es: Seq<(Seq<char>, V)>, key: Seq<char>, value: V)
    requires
        forall|i: int| 0 <= i < es.len() ==> str_lt(#[trigger] es[i].0, key),
    ensures
        insert(es, key, value) == es.push((key, value)),
{
    let ks = keys(es);
    if ks.len() > 0 {
        assert(ks.last() == es[es.len() - 1].0);
        lemma_order_facts(ks.last(), key);
    }
    assert(slot(ks, key) == ks.len());
    assert(es.insert(es.len() as int, (key, value)) =~= es.push((key, value)));
}

/// A string above all of some strings goes to the end.
pub proof fn lemma_insert_string_above(ss: Seq<Seq<char>>, value: Seq<char>)
    requires
        forall|i: int| 0 <= i < ss.len() ==> str_lt(#[trigger] ss[i], value),
    ensures
        insert_string(ss, value) == ss.push(value),
        position(ss, value) is None,
{
    if ss.len() > 0 {
        lemma_order_facts(ss.last(), value);
    }
    assert(slot(ss, value) == ss.len());
    assert(ss.insert(ss.len() as int, value) =~= ss.push(value));
    lemma_position(ss, value, 0);
    if position(ss, value) is Some {
        let i = position(ss, value)->0;
        lemma_order_facts(ss[i], value);
    }
}

/// Putting a string among sorted strings leaves them sorted.
pub proof fn lemma_insert_string_sorted(ss: Seq<Seq<char>>, value: Seq<char>)
    requires
        sorted(ss),
    ensures
        sorted(insert_string(ss, value)),
{
    let es = Seq::new(ss.len(), |i: int| (ss[i], ()));
    assert(keys(es) =~= ss);
    lemma_slot(ss, value);
    lemma_insert_sorted(es, value, ());
    if present_at_slot(ss, value) {
    } else {
        assert(keys(insert(es, value, ())) =~= ss.insert(slot(ss, value), value));
    }
}

/// What the entries hold after a key is set: the new entry, and the
/// entries of the other keys.
pub proof fn lemma_insert_holds<V>(es: Seq<(Seq<char>, V)>, key: Seq<char>, value: V)
    ensures
        forall|i: int|
            0 <= i < insert(es, key, value).len() ==> (#[trigger] insert(es, key, value)[i] == (
                key,
                value,
            ) || es.contains(insert(es, key, value)[i])),
{
    let ks = keys(es);
    let s = slot(ks, key);
    let out = insert(es, key, value);
    lemma_slot(ks, key);
    assert forall|i: int| 0 <= i < out.len() implies (#[trigger] out[i] == (key, value)
        || es.contains(out[i])) by {
        if present_at_slot(ks, key) {
            if i != s - 1 {
                assert(out[i] == es[i]);
            }
        } else {
            if i < s {
                assert(out[i] == es[i]);
            } else if i > s {
                assert(out[i] == es[i - 1]);
            }
        }
    }
}

/// The index of the first entry with `key`.
pub fn find<V>(entries: &Vec<(String, V)>, key: &str) -> (r: Option<usize>)
    ensures
        match r {
            Some(i) => i < entries.len() && entries[i as int].0@ == key@ && position(
                entry_keys(entries@),
                key@,
            ) == Some(i as int),
            None => position(entry_keys(entries@), key@) is None,
        },
{
    let mut i: usize = 0;
    while i < entries.len()
        invariant
            i <= entries.len(),
            position(entry_keys(entries@), key@) == position_from(
                entry_keys(entries@),
                key@,
                i as int,
            ),
        decreases entries.len() - i,
    {
        if crate::text::str_eq(entries[i].0.as_str(), key) {
            return Some(i);
        }
        i = i + 1;
    }
    None
}

/// Whether `value` is among `values`.
pub fn contains_string(values: &Vec<String>, value: &str) -> (r: bool)
    ensures
        r == position(strings_view(values@), value@) is Some,
{
    let mut i: usize = 0;
    while i < values.len()
        invariant
            i <= values.len(),
            position(strings_view(values@), value@) == position_from(
                strings_view(values@),
                value@,
                i as int,
            ),
        decreases values.len() - i,
    {
        if crate::text::str_eq(values[i].as_str(), value) {
            return true;
        }
        i = i + 1;
    }
    false
}

/// Sets `key` to `value`, keeping sorted entries sorted.
pub fn insert_entry<V: View>(entries: &mut Vec<(String, V)>, key: String, value: V)
    ensures
        entries_view(final(entries)@) == insert(entries_view(old(entries)@), key@, value@),
        sorted(entry_keys(old(entries)@)) ==> sorted(entry_keys(final(entries)@)),
{
    let ghost before = entries_view(entries@);
    proof {
        assert(entry_keys(entries@) =~= keys(before));
        if sorted(keys(before)) {
            lemma_insert_sorted(before, key@, value@);
        }
    }
    let mut i: usize = entries.len();
    let mut present = false;
    assert(keys(before).take(i as int) =~= keys(before));
    while i > 0
        invariant_except_break
            !present,
            slot(keys(before), key@) == slot(keys(before).take(i as int), key@),
        invariant
            i <= entries.len(),
            entries_view(entries@) == before,
        ensures
            i <= entries.len(),
            entries_view(entries@) == before,
            i as int == slot(keys(before), key@),
            present == present_at_slot(keys(before), key@),
        decreases i,
    {
        let ghost ks = keys(before).take(i as int);
        assert(ks.last() == entries@[i - 1].0@);
        match str_order(key.as_str(), entries[i - 1].0.as_str()) {
            Order::Less => {
                assert(ks.drop_last() =~= keys(before).take(i - 1));
                i = i - 1;
            },
            Order::Equal => {
                proof {
                    lemma_order_facts(key@, ks.last());
                }
                present = true;
                break ;
            },
            Order::Greater => {
                proof {
                    lemma_order_facts(key@, ks.last());
                }
                break ;
            },
        }
    }
    if present {
        entries[i - 1] = (key, value);
        assert(entries_view(entries@) =~= before.update(i - 1, (key@, value@)));
    } else {
        entries.insert(i, (key, value));
        assert(entries_view(entries@) =~= before.insert(i as int, (key@, value@)));
    }
    assert(entry_keys(entries@) =~= keys(entries_view(entries@)));
}

/// Puts `value` among `values`, keeping sorted strings sorted.
pub fn insert_sorted_string(values: &mut Vec<String>, value: String)
    ensures
        strings_view(final(values)@) == insert_string(strings_view(old(values)@), value@),
        sorted(strings_view(old(values)@)) ==> sorted(strings_view(final(values)@)),
{
    let ghost before = strings_view(values@);
    proof {
        if sorted(before) {
            lemma_insert_string_sorted(before, value@);
        }
    }
    let mut i: usize = values.len();
    let mut present = false;
    assert(before.take(i as int) =~= before);
    while i > 0
        invariant_except_break
            !present,
            slot(before, value@) == slot(before.take(i as int), value@),
        invariant
            i <= values.len(),
            strings_view(values@) == before,
        ensures
            i <= values.len(),
            strings_view(values@) == before,
            i as int == slot(before, value@),
            present == present_at_slot(before, value@),
        decreases i,
    {
        let ghost ks = before.take(i as int);
        assert(ks.last() == values@[i - 1]@);
        match str_order(value.as_str(), values[i - 1].as_str()) {
            Order::Less => {
                assert(ks.drop_last() =~= before.take(i - 1));
                i = i - 1;
            },
            Order::Equal => {
                proof {
                    lemma_order_facts(value@, ks.last());
                }
                present = true;
                break ;
            },
            Order::Greater => {
                proof {
                    lemma_order_facts(value@, ks.last());
                }
                break ;
            },
        }
    }
    if !present {
        values.insert(i, value);
        assert(strings_view(values@) =~= before.insert(i as int, value@));
    }
}

/// A copy of some strings.
pub fn clone_strings(values: &Vec<String>) -> (r: Vec<String>)
    ensures
        strings_view(r@) == strings_view(values@),
{
    let mut out: Vec<String> = Vec::new();
    let mut i: usize = 0;
    while i < values.len()
        invariant
            i <= values.len(),
            out@.len() == i,
            forall|j: int| 0 <= j < i ==> out@[j]@ == values@[j]@,
        decreases values.len() - i,
    {
        out.push(values[i].clone());
        i = i + 1;
    }
    assert(strings_view(out@) =~= strings_view(values@));
    out
}

} // verus!
