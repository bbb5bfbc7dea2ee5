//! Glue of the browser window: which entries of a directory the tree shows,
//! and what the arrow and enter keys do in each list.

use crate::file_explorer;
use crate::file_explorer::NewEntry;
use crate::search;
use crate::search::DirEntry;
use crate::selection::display_file;
use crate::selection::is_displayed;
use vstd::multiset::Multiset;
use vstd::prelude::*;
use vstd::seq_lib::to_multiset_build;
use vstd::seq_lib::to_multiset_insert;

verus! {

/// The entries of a directory that the tree shows, in the order they were
/// read: every directory, and the files that are offered for playing.
pub open spec fn shown_entries(listing: Seq<DirEntry>) -> Seq<NewEntry>
    decreases listing.len(),
{
    if listing.len() == 0 {
        Seq::empty()
    } else {
        let before = shown_entries(listing.drop_last());
        let entry = listing.last();
        if entry.is_directory {
            before.push(NewEntry::Directory { path_component: entry.name })
        } else if entry.is_file && is_displayed(entry.name@) {
            before.push(NewEntry::File { path_component: entry.name })
        } else {
            before
        }
    }
}

/// Order of names: character by character, by the number of the character;
/// a name comes before every longer name that begins with it.
pub open spec fn name_le(a: Seq<char>, b: Seq<char>) -> bool
    decreases a.len(),
{
    if a.len() == 0 {
        true
    } else if b.len() == 0 {
        false
    } else if a[0] != b[0] {
        (a[0] as int) < (b[0] as int)
    } else {
        name_le(a.drop_first(), b.drop_first())
    }
}

/// Order of the entries of a directory: directories first, each kind by
/// name.
pub open spec fn entry_le(a: NewEntry, b: NewEntry) -> bool {
    if a.kind() == b.kind() {
        name_le(a.name(), b.name())
    } else {
        a is Directory
    }
}

/// Every entry comes before, or is equal in order to, every entry after it.
pub open spec fn is_ordered(entries: Seq<NewEntry>) -> bool {
    forall|i: int, j: int| 0 <= i < j < entries.len() ==> entry_le(entries[i], entries[j])
}

/// Of two names, one comes before the other or they are the same.
pub proof fn lemma_name_le_total(a: Seq<char>, b: Seq<char>)
    ensures
        name_le(a, b) || name_le(b, a),
    decreases a.len(),
{
    if a.len() > 0 && b.len() > 0 && a[0] == b[0] {
        lemma_name_le_total(a.drop_first(), b.drop_first());
    }
}

/// Two names that come before each other are the same name.
pub proof fn lemma_name_le_antisymmetric(a: Seq<char>, b: Seq<char>)
    requires
        name_le(a, b),
        name_le(b, a),
    ensures
        a == b,
    decreases a.len(),
{
    if a.len() > 0 && b.len() > 0 {
        lemma_name_le_antisymmetric(a.drop_first(), b.drop_first());
        assert(a =~= seq![a[0]] + a.drop_first());
        assert(b =~= seq![b[0]] + b.drop_first());
    }
    assert(a =~= b);
}

/// The order of names passes on: before what is before a third is before the
/// third.
pub proof fn lemma_name_le_transitive(a: Seq<char>, b: Seq<char>, c: Seq<char>)
    requires
        name_le(a, b),
        name_le(b, c),
    ensures
        name_le(a, c),
    decreases a.len(),
{
    if a.len() > 0 && b.len() > 0 && c.len() > 0 && a[0] == b[0] && b[0] == c[0] {
        lemma_name_le_transitive(a.drop_first(), b.drop_first(), c.drop_first());
    }
}

/// Of two entries, one comes before the other or they are equal in order,
/// and the order passes on.
pub proof fn lemma_entry_le_is_an_order(a: NewEntry, b: NewEntry, c: NewEntry)
    ensures
        entry_le(a, b) || entry_le(b, a),
        entry_le(a, b) && entry_le(b, c) ==> entry_le(a, c),
{
    lemma_name_le_total(a.name(), b.name());
    if entry_le(a, b) && entry_le(b, c) && a.kind() == b.kind() && b.kind() == c.kind() {
        lemma_name_le_transitive(a.name(), b.name(), c.name());
    }
}

/// Whether the name `a` comes before the name `b`, or is the same.
pub fn name_before(a: &str, b: &str) -> (before: bool)
    ensures
        before == name_le(a@, b@),
{
    let a_len = a.unicode_len();
    let b_len = b.unicode_len();
    let mut index: usize = 0;
    assert(a@.subrange(0, a@.len() as int) =~= a@);
    assert(b@.subrange(0, b@.len() as int) =~= b@);
    while index < a_len && index < b_len
        invariant
            a_len == a@.len(),
            b_len == b@.len(),
            index <= a_len,
            index <= b_len,
            name_le(a@, b@) == name_le(
                a@.subrange(index as int, a@.len() as int),
                b@.subrange(index as int, b@.len() as int),
            ),
        decreases a_len - index,
    {
        let ghost a_rest = a@.subrange(index as int, a@.len() as int);
        let ghost b_rest = b@.subrange(index as int, b@.len() as int);
        let a_char = a.get_char(index);
        let b_char = b.get_char(index);
        assert(a_rest[0] == a_char && b_rest[0] == b_char);
        if a_char != b_char {
            return (a_char as u32) < (b_char as u32);
        }
        index += 1;
        assert(a_rest.drop_first() =~= a@.subrange(index as int, a@.len() as int));
        assert(b_rest.drop_first() =~= b@.subrange(index as int, b@.len() as int));
    }
    index == a_len
}

/// Whether the entry `a` comes before the entry `b`, or is equal in order.
pub fn entry_before(a: &NewEntry, b: &NewEntry) -> (before: bool)
    ensures
        before == entry_le(*a, *b),
{
    match (a, b) {
        (NewEntry::Directory { path_component: left }, NewEntry::Directory { path_component: right }) => name_before(
            left.as_str(),
            right.as_str(),
        ),
        (NewEntry::File { path_component: left }, NewEntry::File { path_component: right }) => name_before(
            left.as_str(),
            right.as_str(),
        ),
        (NewEntry::Directory { .. }, NewEntry::File { .. }) => true,
        (NewEntry::File { .. }, NewEntry::Directory { .. }) => false,
    }
}

/// Putting an entry where all before it come before it, and it comes before
/// all after it, keeps the entries in order.
pub proof fn lemma_insert_keeps_order(entries: Seq<NewEntry>, place: int, entry: NewEntry)
    requires
        is_ordered(entries),
        0 <= place <= entries.len(),
        forall|i: int| 0 <= i < place ==> entry_le(#[trigger] entries[i], entry),
        forall|j: int| place <= j < entries.len() ==> entry_le(entry, #[trigger] entries[j]),
    ensures
        is_ordered(entries.insert(place, entry)),
{
    let after = entries.insert(place, entry);
    assert forall|i: int, j: int| 0 <= i < j < after.len() implies entry_le(after[i], after[j]) by {
        if i < place && j > place {
            assert(after[i] == entries[i] && after[j] == entries[j - 1]);
        } else if i < place && j < place {
            assert(after[i] == entries[i] && after[j] == entries[j]);
        } else if i > place {
            assert(after[i] == entries[i - 1] && after[j] == entries[j - 1]);
        } else if i == place {
            assert(after[j] == entries[j - 1]);
        } else {
            assert(after[i] == entries[i]);
        }
    }
}

/// Puts the entries of a directory in order: directories first, each kind by
/// name. The same entries come out, each as often as it went in.
pub fn order_entries(entries: Vec<NewEntry>) -> (ordered: Vec<NewEntry>)
    ensures
        is_ordered(ordered@),
        ordered@.to_multiset() == entries@.to_multiset(),
{
    let ghost all = entries@;
    let mut rest = entries;
    let mut ordered: Vec<NewEntry> = Vec::new();
    assert(ordered@.to_multiset().add(rest@.to_multiset()) =~= all.to_multiset()) by {
        assert(ordered@.to_multiset() =~= Multiset::<NewEntry>::empty()) by {
            ordered@.to_multiset_ensures();
        }
    }
    while rest.len() > 0
        invariant
            is_ordered(ordered@),
            ordered@.to_multiset().add(rest@.to_multiset()) == all.to_multiset(),
        decreases rest@.len(),
    {
        let ghost before = rest@;
        let ghost sorted = ordered@;
        let entry = rest.pop().unwrap();
        proof {
            assert(before =~= rest@.push(entry));
            to_multiset_build(rest@, entry);
        }
        let mut place: usize = 0;
        let mut found = false;
        while place < ordered.len() && !found
            invariant
                ordered@ == sorted,
                place <= ordered@.len(),
                forall|i: int| 0 <= i < place ==> entry_le(#[trigger] ordered@[i], entry),
                found ==> place < ordered@.len() && !entry_le(ordered@[place as int], entry),
            decreases ordered@.len() - place + if found {
                0int
            } else {
                1int
            },
        {
            if entry_before(&ordered[place], &entry) {
                place += 1;
            } else {
                found = true;
            }
        }
        proof {
            assert forall|j: int| place <= j < sorted.len() implies entry_le(entry, #[trigger] sorted[j]) by {
                lemma_entry_le_is_an_order(sorted[place as int], entry, sorted[j]);
                lemma_entry_le_is_an_order(entry, sorted[place as int], sorted[j]);
            }
            lemma_insert_keeps_order(sorted, place as int, entry);
            to_multiset_insert(sorted, place as int, entry);
        }
        ordered.insert(place, entry);
        assert(ordered@.to_multiset().add(rest@.to_multiset()) =~= all.to_multiset());
    }
    proof {
        assert(rest@.to_multiset() =~= Multiset::<NewEntry>::empty()) by {
            rest@.to_multiset_ensures();
        }
        assert(ordered@.to_multiset() =~= all.to_multiset());
    }
    ordered
}

/// Picks from the listing of a directory what the tree shows, and puts it
/// in order: directories first, each kind by name.
pub fn load_directory_entries(listing: Vec<DirEntry>) -> (results: Vec<NewEntry>)
    ensures
        is_ordered(results@),
        results@.to_multiset() == shown_entries(listing@).to_multiset(),
{
    let mut results: Vec<NewEntry> = Vec::new();
    let mut listing = listing;
    let ghost all = listing@;
    let mut reversed: Vec<DirEntry> = Vec::new();
    while listing.len() > 0
        invariant
            reversed@.len() + listing@.len() == all.len(),
            forall|i: int| 0 <= i < listing@.len() ==> listing@[i] == all[i],
            forall|i: int| 0 <= i < reversed@.len() ==> reversed@[i] == all[all.len() - 1 - i],
        decreases listing@.len(),
    {
        let entry = listing.pop().unwrap();
        reversed.push(entry);
    }
    let ghost mut taken: int = 0;
    while reversed.len() > 0
        invariant
            0 <= taken,
            taken + reversed@.len() == all.len(),
            forall|i: int| 0 <= i < reversed@.len() ==> reversed@[i] == all[all.len() - 1 - i],
            results@ == shown_entries(all.take(taken)),
        decreases reversed@.len(),
    {
        let entry = reversed.pop().unwrap();
        proof {
            assert(entry == all[taken]);
            assert(all.take(taken + 1).drop_last() =~= all.take(taken));
            assert(all.take(taken + 1).last() == entry);
        }
        if entry.is_directory {
            results.push(NewEntry::Directory { path_component: entry.name });
        } else if entry.is_file && display_file(entry.name.as_str()) {
            results.push(NewEntry::File { path_component: entry.name });
        }
        proof {
            taken = taken + 1;
        }
    }
    assert(all.take(taken) =~= all);
    order_entries(results)
}

/// The keys that the lists react to.
pub enum Key {
    ArrowDown,
    ArrowUp,
    Enter,
    Other,
}

/// In the tree, the arrows move the selection and enter opens or closes the
/// selected directory.
pub fn on_key_press_explorer(key: Key) -> (message: Option<file_explorer::Message>)
    ensures
        message == match key {
            Key::ArrowDown => Some(file_explorer::Message::SelectNext),
            Key::ArrowUp => Some(file_explorer::Message::SelectPrevious),
            Key::Enter => Some(file_explorer::Message::ExpandCollapseCurrent),
            Key::Other => None,
        },
{
    match key {
        Key::ArrowDown => Some(file_explorer::Message::SelectNext),
        Key::ArrowUp => Some(file_explorer::Message::SelectPrevious),
        Key::Enter => Some(file_explorer::Message::ExpandCollapseCurrent),
        Key::Other => None,
    }
}

/// In the search results, the arrows move the selection.
pub fn on_key_press_search(key: Key) -> (message: Option<search::Message>)
    ensures
        message == match key {
            Key::ArrowDown => Some(search::Message::SelectNext),
            Key::ArrowUp => Some(search::Message::SelectPrevious),
            _ => None,
        },
{
    match key {
        Key::ArrowDown => Some(search::Message::SelectNext),
        Key::ArrowUp => Some(search::Message::SelectPrevious),
        _ => None,
    }
}

} // verus!
