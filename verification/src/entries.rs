//! Sets of forwarding-table entries: what it means for one to be well
//! formed, how two of them differ, and which entry of one matches an
//! address.

use crate::lpm::{
    address_in_prefix, covers, has_match, is_best_match, later_outranks, LpmCandidate,
};
use crate::types::{Ipv4Address, TableEntry, TableKey};
use vstd::prelude::*;

verus! {

/// The message of the error that rejects a set of entries in which a prefix
/// length is above 32 or two entries share a key.
pub const MALFORMED_ENTRY_SET: &'static str = "Malformed set of table entries";

/// Whether a sequence of entries holds one with the key `key`.
pub open spec fn has_entry(entries: Seq<TableEntry>, key: TableKey) -> bool {
    exists|i: int| 0 <= i < entries.len() && (#[trigger] entries[i]).key == key
}

/// The position of the entry with the key `key`, where there is one.
pub open spec fn entry_index(entries: Seq<TableEntry>, key: TableKey) -> int {
    choose|i: int| 0 <= i < entries.len() && (#[trigger] entries[i]).key == key
}

/// A well-formed set of entries: every prefix length is at most 32 and no
/// two entries share a key.
pub open spec fn entries_wf(entries: Seq<TableEntry>) -> bool {
    &&& forall|i: int| 0 <= i < entries.len() ==> (#[trigger] entries[i]).valid()
    &&& forall|i: int, j: int|
        0 <= i < entries.len() && 0 <= j < entries.len() && i != j ==> (#[trigger] entries[i]).key
            != (#[trigger] entries[j]).key
}

/// The entries after `entry` is written: it takes the place of the entry with
/// the same key, or stands last if there is none.
pub open spec fn with_entry(entries: Seq<TableEntry>, entry: TableEntry) -> Seq<TableEntry> {
    if has_entry(entries, entry.key) {
        entries.update(entry_index(entries, entry.key), entry)
    } else {
        entries.push(entry)
    }
}

/// The entries without the one of key `key`.
pub open spec fn without_entry(entries: Seq<TableEntry>, key: TableKey) -> Seq<TableEntry> {
    if has_entry(entries, key) {
        entries.remove(entry_index(entries, key))
    } else {
        entries
    }
}

/// The entries that a device must be sent to hold `desired`: those of
/// `desired` that `current` does not hold in identical form, in the order of
/// `desired`.
pub open spec fn to_upsert(current: Seq<TableEntry>, desired: Seq<TableEntry>) -> Seq<TableEntry> {
    desired.filter(|e: TableEntry| !current.contains(e))
}

/// The keys that a device must drop to hold `desired`: the keys of `current`
/// that no entry of `desired` has, in the order of `current`.
pub open spec fn to_delete(current: Seq<TableEntry>, desired: Seq<TableEntry>) -> Seq<TableKey> {
    current.filter(|e: TableEntry| !has_entry(desired, e.key)).map_values(|e: TableEntry| e.key)
}

/// What longest-prefix matching reads of each entry of a table.
pub open spec fn entry_candidates(entries: Seq<TableEntry>) -> Seq<LpmCandidate> {
    entries.map_values(
        |e: TableEntry|
            LpmCandidate {
                prefix: e.key.ipv4_dst.0,
                prefix_len: e.key.prefix_len,
                metric: e.priority,
            },
    )
}

/// In a well-formed set an entry is found at one position only.
pub proof fn lemma_entry_index_unique(entries: Seq<TableEntry>, key: TableKey, i: int)
    requires
        entries_wf(entries),
        0 <= i < entries.len(),
        entries[i].key == key,
    ensures
        has_entry(entries, key),
        entry_index(entries, key) == i,
{
}

/// Writing a valid entry into a well-formed set leaves a well-formed set that
/// holds the entry and, under every other key, what it held before.
pub proof fn lemma_with_entry(entries: Seq<TableEntry>, entry: TableEntry)
    requires
        entries_wf(entries),
        entry.valid(),
    ensures
        entries_wf(with_entry(entries, entry)),
        with_entry(entries, entry).contains(entry),
        forall|e: TableEntry|
            #![trigger with_entry(entries, entry).contains(e)]
            #![trigger entries.contains(e)]
            with_entry(entries, entry).contains(e) <==> e == entry || (entries.contains(e) && e.key
                != entry.key),
{
    let out = with_entry(entries, entry);
    if has_entry(entries, entry.key) {
        let k = entry_index(entries, entry.key);
        assert(out[k] == entry);
        assert forall|e: TableEntry|
            out.contains(e) <==> e == entry || (entries.contains(e) && e.key != entry.key) by {
            if out.contains(e) {
                let i = choose|i: int| 0 <= i < out.len() && out[i] == e;
                if i != k {
                    assert(entries[i] == e);
                }
            }
            if entries.contains(e) && e.key != entry.key {
                let i = choose|i: int| 0 <= i < entries.len() && entries[i] == e;
                assert(out[i] == e);
            }
        }
    } else {
        assert(out[entries.len() as int] == entry);
        assert forall|e: TableEntry|
            out.contains(e) <==> e == entry || (entries.contains(e) && e.key != entry.key) by {
            if out.contains(e) {
                let i = choose|i: int| 0 <= i < out.len() && out[i] == e;
                if i < entries.len() {
                    assert(entries[i] == e);
                }
            }
            if entries.contains(e) && e.key != entry.key {
                let i = choose|i: int| 0 <= i < entries.len() && entries[i] == e;
                assert(out[i] == e);
            }
        }
    }
}

/// Taking a key out of a well-formed set leaves a well-formed set without
/// that key that holds every other entry.
pub proof fn lemma_without_entry(entries: Seq<TableEntry>, key: TableKey)
    requires
        entries_wf(entries),
    ensures
        entries_wf(without_entry(entries, key)),
        !has_entry(without_entry(entries, key), key),
        forall|e: TableEntry|
            #![trigger without_entry(entries, key).contains(e)]
            #![trigger entries.contains(e)]
            without_entry(entries, key).contains(e) <==> entries.contains(e) && e.key != key,
{
    let out = without_entry(entries, key);
    if has_entry(entries, key) {
        let k = entry_index(entries, key);
        assert forall|i: int| 0 <= i < out.len() implies out[i] == entries[if i < k {
            i
        } else {
            i + 1
        }] by {}
        assert forall|e: TableEntry| out.contains(e) <==> entries.contains(e) && e.key != key by {
            if out.contains(e) {
                let i = choose|i: int| 0 <= i < out.len() && out[i] == e;
                let a = if i < k { i } else { i + 1 };
                assert(entries[a] == e);
            }
            if entries.contains(e) && e.key != key {
                let a = choose|a: int| 0 <= a < entries.len() && entries[a] == e;
                let i = if a < k { a } else { a - 1 };
                assert(out[i] == e);
            }
        }
    } else {
        assert forall|e: TableEntry| out.contains(e) <==> entries.contains(e) && e.key != key by {
            if entries.contains(e) {
                let a = choose|a: int| 0 <= a < entries.len() && entries[a] == e;
                assert(entries[a].key != key);
            }
        }
    }
}

/// A device that holds nothing is sent the whole desired set: every entry is
/// to be written and nothing is to be dropped.
pub proof fn lemma_first_diff_is_full(desired: Seq<TableEntry>)
    ensures
        to_upsert(Seq::<TableEntry>::empty(), desired) == desired,
        to_delete(Seq::<TableEntry>::empty(), desired) == Seq::<TableKey>::empty(),
    decreases desired.len(),
{
    let none = Seq::<TableEntry>::empty();
    let keep = |e: TableEntry| !none.contains(e);
    let gone = |e: TableEntry| !has_entry(desired, e.key);
    if desired.len() > 0 {
        lemma_first_diff_is_full(desired.drop_last());
        desired.drop_last().lemma_filter_push(desired.last(), keep);
        assert(desired.drop_last().push(desired.last()) =~= desired);
    } else {
        assert(desired.filter(keep) =~= desired) by {
            reveal(Seq::filter);
        }
    }
    assert(none.filter(gone) =~= none) by {
        reveal(Seq::filter);
    }
    assert(to_delete(none, desired) =~= Seq::<TableKey>::empty());
}

/// A set of entries does not differ from itself: nothing is to be written
/// and nothing to be dropped.
pub proof fn lemma_diff_of_same_is_empty(entries: Seq<TableEntry>)
    ensures
        to_upsert(entries, entries) == Seq::<TableEntry>::empty(),
        to_delete(entries, entries) == Seq::<TableKey>::empty(),
{
    let keep = |e: TableEntry| !entries.contains(e);
    let gone = |e: TableEntry| !has_entry(entries, e.key);
    assert forall|i: int| 0 <= i < entries.len() implies !keep(#[trigger] entries[i]) by {}
    entries.lemma_all_neg_filter_empty(keep);
    assert forall|i: int| 0 <= i < entries.len() implies !gone(#[trigger] entries[i]) by {}
    entries.lemma_all_neg_filter_empty(gone);
    assert(entries.filter(keep) == Seq::<TableEntry>::empty());
    assert(entries.filter(gone) == Seq::<TableEntry>::empty());
    assert(to_delete(entries, entries) =~= Seq::<TableKey>::empty());
}

/// The position of the entry with the key `key`.
pub fn find_entry(entries: &Vec<TableEntry>, key: TableKey) -> (r: Option<usize>)
    ensures
        match r {
            Some(i) => i < entries@.len() && entries@[i as int].key == key,
            None => !has_entry(entries@, key),
        },
{
    let mut i: usize = 0;
    while i < entries.len()
        invariant
            i <= entries@.len(),
            forall|j: int| 0 <= j < i ==> (#[trigger] entries@[j]).key != key,
        decreases entries@.len() - i,
    {
        if entries[i].key == key {
            return Some(i);
        }
        i += 1;
    }
    None
}

/// Decides whether the entries hold `entry` in identical form.
pub fn holds_entry(entries: &Vec<TableEntry>, entry: TableEntry) -> (r: bool)
    ensures
        r == entries@.contains(entry),
{
    let mut i: usize = 0;
    while i < entries.len()
        invariant
            i <= entries@.len(),
            forall|j: int| 0 <= j < i ==> (#[trigger] entries@[j]) != entry,
        decreases entries@.len() - i,
    {
        if entries[i] == entry {
            return true;
        }
        i += 1;
    }
    false
}

/// Decides whether the entries form a well-formed set.
pub fn check_entries(entries: &Vec<TableEntry>) -> (r: bool)
    ensures
        r == entries_wf(entries@),
{
    let mut i: usize = 0;
    while i < entries.len()
        invariant
            i <= entries@.len(),
            forall|a: int| 0 <= a < i ==> (#[trigger] entries@[a]).valid(),
            forall|a: int, b: int|
                0 <= a < i && 0 <= b < a ==> (#[trigger] entries@[a]).key != (
                #[trigger] entries@[b]).key,
        decreases entries@.len() - i,
    {
        if entries[i].key.prefix_len > 32 {
            assert(!entries@[i as int].valid());
            return false;
        }
        let mut j: usize = 0;
        while j < i
            invariant
                j <= i < entries@.len(),
                forall|b: int|
                    0 <= b < j ==> entries@[i as int].key != (#[trigger] entries@[b]).key,
            decreases i - j,
        {
            if entries[j].key == entries[i].key {
                return false;
            }
            j += 1;
        }
        i += 1;
    }
    assert forall|a: int, b: int|
        0 <= a < entries@.len() && 0 <= b < entries@.len() && a != b implies (
    #[trigger] entries@[a]).key != (#[trigger] entries@[b]).key by {
        if b < a {
        } else {
            assert(entries@[b].key != entries@[a].key);
        }
    }
    true
}

/// A copy of the entries.
pub fn copy_entries(entries: &Vec<TableEntry>) -> (out: Vec<TableEntry>)
    ensures
        out@ == entries@,
{
    let mut out: Vec<TableEntry> = Vec::new();
    let mut i: usize = 0;
    while i < entries.len()
        invariant
            i <= entries@.len(),
            out@ == entries@.take(i as int),
        decreases entries@.len() - i,
    {
        out.push(entries[i]);
        i += 1;
    }
    assert(entries@.take(i as int) == entries@);
    out
}

/// The longest-prefix match for `dst_ip` among `entries`.
pub fn best_entry(entries: &Vec<TableEntry>, dst_ip: Ipv4Address) -> (result: Option<TableEntry>)
    ensures
        match result {
            None => !has_match(entry_candidates(entries@), dst_ip.0),
            Some(entry) => exists|i: int|
                #[trigger] is_best_match(entry_candidates(entries@), dst_ip.0, i) && entry
                    == entries@[i],
        },
{
    let ghost cands = entry_candidates(entries@);
    let mut best: Option<usize> = None;
    let mut i: usize = 0;
    while i < entries.len()
        invariant
            i <= entries@.len(),
            cands == entry_candidates(entries@),
            match best {
                None => forall|j: int| 0 <= j < i ==> !covers(#[trigger] cands[j], dst_ip.0),
                Some(b) => b < i && is_best_match(cands.take(i as int), dst_ip.0, b as int),
            },
        decreases entries@.len() - i,
    {
        let entry = &entries[i];
        if address_in_prefix(entry.key.ipv4_dst.as_u32(), entry.key.prefix_len, dst_ip.as_u32()) {
            let replace = match best {
                None => true,
                Some(b) => later_outranks(
                    entry.key.prefix_len,
                    entry.priority,
                    entries[b].key.prefix_len,
                    entries[b].priority,
                ),
            };
            if replace {
                best = Some(i);
            }
        }
        i += 1;
    }
    assert(cands.len() == entries@.len());
    match best {
        None => None,
        Some(b) => {
            assert(cands.take(i as int) == cands);
            let entry = entries[b];
            assert(is_best_match(entry_candidates(entries@), dst_ip.0, b as int));
            Some(entry)
        },
    }
}

} // verus!
