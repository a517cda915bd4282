//! The per-device store of forwarding-table entries: what was last pushed to
//! each device, how a desired set of entries differs from it, and how the
//! store follows a successful push.
//!
//! Each device has any number of named tables; the table of IPv4 routes is
//! named [`IPV4_LPM`]. A table holds at most one entry per key.

use crate::entries::{
    best_entry, check_entries, copy_entries, entries_wf, entry_candidates, find_entry, has_entry,
    holds_entry, lemma_diff_of_same_is_empty, lemma_entry_index_unique, lemma_with_entry,
    lemma_without_entry, to_delete, to_upsert, with_entry, without_entry, MALFORMED_ENTRY_SET,
};
use crate::lpm::{has_match, is_best_match, PREFIX_LENGTH_OUT_OF_RANGE};
use crate::text::str_eq;
use crate::types::{DeviceId, Ipv4Address, P4RuntimeError, TableAction, TableEntry, TableKey};
use std::collections::HashMap;
use vstd::prelude::*;
use vstd::std_specs::hash::{group_hash_axioms, spec_hash_map_iter};
use vstd::std_specs::iter::IteratorSpec;
use vstd::string::StringExecFns;

verus! {

/// The name of the table of IPv4 longest-prefix-match entries.
pub const IPV4_LPM: &'static str = "ipv4_lpm";

/// A table of a device: its name and its entries.
#[derive(Debug)]
pub struct NamedTable {
    pub name: String,
    pub entries: Vec<TableEntry>,
}

/// Whether the table at `i` has the name `name`.
pub open spec fn table_named(tables: Seq<NamedTable>, name: Seq<char>, i: int) -> bool {
    0 <= i < tables.len() && tables[i].name@ == name
}

/// Whether one of the tables has the name `name`.
pub open spec fn has_table(tables: Seq<NamedTable>, name: Seq<char>) -> bool {
    exists|i: int| table_named(tables, name, i)
}

/// The position of the table named `name`, where there is one.
pub open spec fn table_index(tables: Seq<NamedTable>, name: Seq<char>) -> int {
    choose|i: int| table_named(tables, name, i)
}

/// Well-formed tables of a device: no two share a name, and each holds a
/// well-formed set of entries.
pub open spec fn tables_wf(tables: Seq<NamedTable>) -> bool {
    &&& forall|i: int, j: int|
        0 <= i < tables.len() && 0 <= j < tables.len() && i != j ==> (#[trigger] tables[i]).name@
            != (#[trigger] tables[j]).name@
    &&& forall|i: int| 0 <= i < tables.len() ==> entries_wf((#[trigger] tables[i]).entries@)
}

/// The tables of a device as a map from table name to entries.
pub open spec fn tables_view(tables: Seq<NamedTable>) -> Map<Seq<char>, Seq<TableEntry>> {
    Map::new(
        |name: Seq<char>| has_table(tables, name),
        |name: Seq<char>| tables[table_index(tables, name)].entries@,
    )
}

/// Among well-formed tables a name is found at one position only.
pub proof fn lemma_table_index_unique(tables: Seq<NamedTable>, name: Seq<char>, i: int)
    requires
        tables_wf(tables),
        table_named(tables, name, i),
    ensures
        has_table(tables, name),
        table_index(tables, name) == i,
        tables_view(tables).contains_key(name),
        tables_view(tables)[name] == tables[i].entries@,
{
    let j = table_index(tables, name);
    assert(table_named(tables, name, j));
}

/// Replacing the entries of one table changes the map at that name only.
pub proof fn lemma_tables_update(tables: Seq<NamedTable>, i: int, table: NamedTable)
    requires
        tables_wf(tables),
        0 <= i < tables.len(),
        table.name@ == tables[i].name@,
        entries_wf(table.entries@),
    ensures
        tables_wf(tables.update(i, table)),
        tables_view(tables.update(i, table)) == tables_view(tables).insert(
            table.name@,
            table.entries@,
        ),
{
    let out = tables.update(i, table);
    assert forall|a: int, b: int| 0 <= a < out.len() && 0 <= b < out.len() && a != b implies (
    #[trigger] out[a]).name@ != (#[trigger] out[b]).name@ by {
        assert(out[a].name@ == tables[a].name@);
        assert(out[b].name@ == tables[b].name@);
    }
    assert forall|name: Seq<char>| has_table(out, name) <==> has_table(tables, name) by {
        if has_table(out, name) {
            let j = choose|j: int| table_named(out, name, j);
            assert(table_named(tables, name, j));
        }
        if has_table(tables, name) {
            let j = choose|j: int| table_named(tables, name, j);
            assert(table_named(out, name, j));
        }
    }
    assert forall|name: Seq<char>| has_table(out, name) implies #[trigger] tables_view(out)[name]
        == tables_view(tables).insert(table.name@, table.entries@)[name] by {
        let j = choose|j: int| table_named(out, name, j);
        lemma_table_index_unique(out, name, j);
        assert(table_named(tables, name, j));
        lemma_table_index_unique(tables, name, j);
    }
    assert(table_named(tables, table.name@, i));
    assert(tables_view(out) =~= tables_view(tables).insert(table.name@, table.entries@));
}

/// Adding a table under a new name adds that name to the map.
pub proof fn lemma_tables_push(tables: Seq<NamedTable>, table: NamedTable)
    requires
        tables_wf(tables),
        !has_table(tables, table.name@),
        entries_wf(table.entries@),
    ensures
        tables_wf(tables.push(table)),
        tables_view(tables.push(table)) == tables_view(tables).insert(
            table.name@,
            table.entries@,
        ),
{
    let out = tables.push(table);
    let n = tables.len() as int;
    assert forall|a: int, b: int| 0 <= a < out.len() && 0 <= b < out.len() && a != b implies (
    #[trigger] out[a]).name@ != (#[trigger] out[b]).name@ by {
        if a < n {
            assert(!table_named(tables, table.name@, a));
        }
        if b < n {
            assert(!table_named(tables, table.name@, b));
        }
    }
    assert(table_named(out, table.name@, n));
    assert forall|name: Seq<char>|
        has_table(out, name) <==> has_table(tables, name) || name == table.name@ by {
        if has_table(out, name) {
            let j = choose|j: int| table_named(out, name, j);
            if j < n {
                assert(table_named(tables, name, j));
            }
        }
        if has_table(tables, name) {
            let j = choose|j: int| table_named(tables, name, j);
            assert(table_named(out, name, j));
        }
    }
    assert forall|name: Seq<char>| has_table(out, name) implies #[trigger] tables_view(out)[name]
        == tables_view(tables).insert(table.name@, table.entries@)[name] by {
        let j = choose|j: int| table_named(out, name, j);
        lemma_table_index_unique(out, name, j);
        if j < n {
            assert(table_named(tables, name, j));
            lemma_table_index_unique(tables, name, j);
        }
    }
    assert(tables_view(out) =~= tables_view(tables).insert(table.name@, table.entries@));
}

/// Tables that agree in names and entries, position by position, stand for
/// the same map.
pub proof fn lemma_tables_view_agrees(a: Seq<NamedTable>, b: Seq<NamedTable>)
    requires
        tables_wf(a),
        a.len() == b.len(),
        forall|i: int|
            0 <= i < a.len() ==> (#[trigger] a[i]).name@ == b[i].name@ && a[i].entries@
                == b[i].entries@,
    ensures
        tables_wf(b),
        tables_view(a) == tables_view(b),
{
    assert forall|i: int, j: int| 0 <= i < b.len() && 0 <= j < b.len() && i != j implies (
    #[trigger] b[i]).name@ != (#[trigger] b[j]).name@ by {
        assert(a[i].name@ == b[i].name@);
        assert(a[j].name@ == b[j].name@);
    }
    assert forall|i: int| 0 <= i < b.len() implies entries_wf((#[trigger] b[i]).entries@) by {
        assert(a[i].entries@ == b[i].entries@);
    }
    assert forall|name: Seq<char>| has_table(a, name) <==> has_table(b, name) by {
        if has_table(a, name) {
            let j = choose|j: int| table_named(a, name, j);
            assert(table_named(b, name, j));
        }
        if has_table(b, name) {
            let j = choose|j: int| table_named(b, name, j);
            assert(a[j].name@ == b[j].name@);
            assert(table_named(a, name, j));
        }
    }
    assert forall|name: Seq<char>| has_table(a, name) implies #[trigger] tables_view(a)[name]
        == tables_view(b)[name] by {
        let j = choose|j: int| table_named(a, name, j);
        lemma_table_index_unique(a, name, j);
        assert(table_named(b, name, j));
        lemma_table_index_unique(b, name, j);
    }
    assert(tables_view(a) =~= tables_view(b));
}

/// The position of the table named `name`.
fn find_table(tables: &Vec<NamedTable>, name: &str) -> (r: Option<usize>)
    ensures
        match r {
            Some(i) => table_named(tables@, name@, i as int),
            None => !has_table(tables@, name@),
        },
{
    let mut i: usize = 0;
    while i < tables.len()
        invariant
            i <= tables@.len(),
            forall|j: int| 0 <= j < i ==> !table_named(tables@, name@, j),
        decreases tables@.len() - i,
    {
        if str_eq(tables[i].name.as_str(), name) {
            return Some(i);
        }
        i += 1;
    }
    None
}

/// The name that a table has on the devices.
#[derive(Debug)]
pub struct TableAlias {
    pub name: String,
    pub p4_name: String,
}

/// Whether the alias at `i` is the one of the table `name`.
pub open spec fn alias_named(
    aliases: Seq<(Seq<char>, Seq<char>)>,
    name: Seq<char>,
    i: int,
) -> bool {
    0 <= i < aliases.len() && aliases[i].0 == name
}

/// The aliases after `name` is registered as `p4_name`: the new pair takes
/// the place of the pair for `name`, or stands last if there is none.
pub open spec fn with_alias(
    aliases: Seq<(Seq<char>, Seq<char>)>,
    name: Seq<char>,
    p4_name: Seq<char>,
) -> Seq<(Seq<char>, Seq<char>)> {
    if exists|i: int| alias_named(aliases, name, i) {
        aliases.update(choose|i: int| alias_named(aliases, name, i), (name, p4_name))
    } else {
        aliases.push((name, p4_name))
    }
}

/// The model of the store: for each device its tables, by name.
pub type StoreView = Map<DeviceId, Map<Seq<char>, Seq<TableEntry>>>;

/// The IPv4 table that the store holds for `device_id`: empty where the
/// device is unknown or has no such table.
pub open spec fn snapshot_of(store: StoreView, device_id: DeviceId) -> Seq<TableEntry> {
    if store.contains_key(device_id) && store[device_id].contains_key(IPV4_LPM@) {
        store[device_id][IPV4_LPM@]
    } else {
        Seq::empty()
    }
}

/// The store after the IPv4 table of `device_id` is replaced by `entries`.
pub open spec fn with_snapshot(
    store: StoreView,
    device_id: DeviceId,
    entries: Seq<TableEntry>,
) -> StoreView {
    store.insert(device_id, store[device_id].insert(IPV4_LPM@, entries))
}

/// Once a device's table has been replaced by `desired`, `desired` differs
/// from it in nothing: there is nothing to write and nothing to drop.
pub proof fn lemma_no_diff_after_commit(
    store: StoreView,
    device_id: DeviceId,
    desired: Seq<TableEntry>,
)
    ensures
        snapshot_of(with_snapshot(store, device_id, desired), device_id) == desired,
        to_upsert(snapshot_of(with_snapshot(store, device_id, desired), device_id), desired)
            == Seq::<TableEntry>::empty(),
        to_delete(snapshot_of(with_snapshot(store, device_id, desired), device_id), desired)
            == Seq::<TableKey>::empty(),
{
    lemma_diff_of_same_is_empty(desired);
}

/// Replacing the table of one device leaves the table of every other device
/// as it was.
pub proof fn lemma_commit_is_local(
    store: StoreView,
    device_id: DeviceId,
    desired: Seq<TableEntry>,
    other: DeviceId,
)
    requires
        other != device_id,
    ensures
        snapshot_of(with_snapshot(store, device_id, desired), other) == snapshot_of(store, other),
        with_snapshot(store, device_id, desired).contains_key(other) == store.contains_key(other),
{
}

/// Whether `counts` lists every table of `tables` once, each with the number
/// of its entries.
pub open spec fn counts_of(
    counts: Seq<(String, usize)>,
    tables: Map<Seq<char>, Seq<TableEntry>>,
) -> bool {
    &&& forall|i: int|
        0 <= i < counts.len() ==> tables.contains_key((#[trigger] counts[i]).0@) && counts[i].1
            == tables[counts[i].0@].len()
    &&& forall|name: Seq<char>| #[trigger]
        tables.contains_key(name) ==> exists|i: int|
            0 <= i < counts.len() && (#[trigger] counts[i]).0@ == name
    &&& forall|i: int, j: int|
        0 <= i < counts.len() && 0 <= j < counts.len() && i != j ==> (#[trigger] counts[i]).0@ != (
        #[trigger] counts[j]).0@
}

/// The store of forwarding-table entries, per device and table.
#[derive(Debug)]
pub struct TableManager {
    device_tables: HashMap<DeviceId, Vec<NamedTable>>,
    table_names: Vec<TableAlias>,
}

impl View for TableManager {
    type V = StoreView;

    closed spec fn view(&self) -> StoreView {
        Map::new(
            |d: DeviceId| self.device_tables@.contains_key(d),
            |d: DeviceId| tables_view(self.device_tables@[d]@),
        )
    }
}

impl TableManager {
    /// The invariant of the store: the tables of a device have different
    /// names, and each holds a well-formed set of entries.
    pub closed spec fn wf(&self) -> bool {
        &&& forall|d: DeviceId| #[trigger]
            self.device_tables@.contains_key(d) ==> tables_wf(self.device_tables@[d]@)
        &&& forall|i: int, j: int|
            0 <= i < self.table_names@.len() && 0 <= j < self.table_names@.len() && i != j ==> (
            #[trigger] self.table_names@[i]).name@ != (#[trigger] self.table_names@[j]).name@
    }

    /// The registered table names, each with the name it has on the devices.
    pub closed spec fn aliases(&self) -> Seq<(Seq<char>, Seq<char>)> {
        self.table_names@.map_values(|a: TableAlias| (a.name@, a.p4_name@))
    }

    /// Whether the store knows the device.
    pub open spec fn has_device(&self, device_id: DeviceId) -> bool {
        self@.contains_key(device_id)
    }

    /// The IPv4 table held for `device_id`.
    pub open spec fn snapshot(&self, device_id: DeviceId) -> Seq<TableEntry> {
        snapshot_of(self@, device_id)
    }

    /// Every table of the store holds a well-formed set of entries.
    pub proof fn lemma_snapshot_wf(&self, device_id: DeviceId)
        requires
            self.wf(),
        ensures
            entries_wf(self.snapshot(device_id)),
    {
        if self@.contains_key(device_id) && self@[device_id].contains_key(IPV4_LPM@) {
            let tables = self.device_tables@[device_id]@;
            let i = table_index(tables, IPV4_LPM@);
            assert(table_named(tables, IPV4_LPM@, i));
        }
    }

    /// A store that knows no device.
    pub fn new() -> (r: Self)
        ensures
            r.wf(),
            r@ == Map::<DeviceId, Map<Seq<char>, Seq<TableEntry>>>::empty(),
            r.aliases() == Seq::<(Seq<char>, Seq<char>)>::empty(),
    {
        let r = TableManager { device_tables: HashMap::new(), table_names: Vec::new() };
        assert(r@ =~= Map::<DeviceId, Map<Seq<char>, Seq<TableEntry>>>::empty());
        assert(r.aliases() =~= Seq::<(Seq<char>, Seq<char>)>::empty());
        r
    }

    /// Makes the device known, with no table. A device that was known loses
    /// its tables.
    pub fn initialize_device_tables(&mut self, device_id: DeviceId)
        requires
            old(self).wf(),
        ensures
            final(self).wf(),
            final(self)@ == old(self)@.insert(
                device_id,
                Map::<Seq<char>, Seq<TableEntry>>::empty(),
            ),
            final(self).aliases() == old(self).aliases(),
    {
        broadcast use group_hash_axioms;

        let tables: Vec<NamedTable> = Vec::new();
        assert(tables_view(tables@) =~= Map::<Seq<char>, Seq<TableEntry>>::empty());
        self.device_tables.insert(device_id, tables);
        assert(self@ =~= old(self)@.insert(
            device_id,
            Map::<Seq<char>, Seq<TableEntry>>::empty(),
        ));
    }

    /// Registers the name that the table `table_name` has on the devices, in
    /// place of an earlier registration for that table.
    pub fn register_table_name(&mut self, table_name: &str, p4_table_name: &str)
        requires
            old(self).wf(),
        ensures
            final(self).wf(),
            final(self)@ == old(self)@,
            final(self).aliases() == with_alias(old(self).aliases(), table_name@, p4_table_name@),
    {
        let ghost before = self.aliases();
        let alias = TableAlias {
            name: String::from_str(table_name),
            p4_name: String::from_str(p4_table_name),
        };
        let mut i: usize = 0;
        while i < self.table_names.len()
            invariant
                i <= self.table_names@.len(),
                self.table_names@ == old(self).table_names@,
                self.device_tables == old(self).device_tables,
                forall|j: int| 0 <= j < i ==> !alias_named(before, table_name@, j),
                before == self.aliases(),
                self.wf(),
                alias.name@ == table_name@,
                alias.p4_name@ == p4_table_name@,
            decreases self.table_names@.len() - i,
        {
            if str_eq(self.table_names[i].name.as_str(), table_name) {
                proof {
                    assert(alias_named(before, table_name@, i as int));
                    let k = choose|k: int| alias_named(before, table_name@, k);
                    assert(before[k].0 == self.table_names@[k].name@);
                    assert(before[i as int].0 == self.table_names@[i as int].name@);
                    assert(k == i);
                }
                self.table_names.set(i, alias);
                assert(self.aliases() =~= with_alias(before, table_name@, p4_table_name@));
                assert(self@ =~= old(self)@);
                return ;
            }
            i += 1;
        }
        proof {
            assert forall|j: int| 0 <= j < self.table_names@.len() implies (
            #[trigger] self.table_names@[j]).name@ != table_name@ by {
                assert(!alias_named(before, table_name@, j));
                assert(before[j].0 == self.table_names@[j].name@);
            }
        }
        self.table_names.push(alias);
        assert(self.aliases() =~= with_alias(before, table_name@, p4_table_name@));
        assert(self@ =~= old(self)@);
    }

    /// Forgets the device and its tables.
    pub fn remove_device(&mut self, device_id: DeviceId)
        requires
            old(self).wf(),
        ensures
            final(self).wf(),
            final(self)@ == old(self)@.remove(device_id),
            final(self).aliases() == old(self).aliases(),
    {
        broadcast use group_hash_axioms;

        self.device_tables.remove(&device_id);
        assert(self@ =~= old(self)@.remove(device_id));
    }

    /// Drops every table of the device; the device stays known.
    pub fn clear_device_tables(&mut self, device_id: DeviceId) -> (result: Result<
        (),
        P4RuntimeError,
    >)
        requires
            old(self).wf(),
        ensures
            final(self).wf(),
            final(self).aliases() == old(self).aliases(),
            old(self).has_device(device_id) ==> result is Ok && final(self)@ == old(self)@.insert(
                device_id,
                Map::<Seq<char>, Seq<TableEntry>>::empty(),
            ),
            !old(self).has_device(device_id) ==> result == Err::<(), P4RuntimeError>(
                P4RuntimeError::DeviceNotFound { device_id },
            ) && final(self)@ == old(self)@,
    {
        broadcast use group_hash_axioms;

        if self.device_tables.contains_key(&device_id) {
            self.initialize_device_tables(device_id);
            Ok(())
        } else {
            Err(P4RuntimeError::DeviceNotFound { device_id })
        }
    }

    /// Replaces the IPv4 table of a known device.
    fn store_snapshot(&mut self, device_id: DeviceId, entries: Vec<TableEntry>)
        requires
            old(self).wf(),
            old(self).has_device(device_id),
            entries_wf(entries@),
        ensures
            final(self).wf(),
            final(self)@ == with_snapshot(old(self)@, device_id, entries@),
            final(self).aliases() == old(self).aliases(),
    {
        broadcast use group_hash_axioms;

        let mut tables = match self.device_tables.remove(&device_id) {
            Some(t) => t,
            None => Vec::new(),
        };
        let ghost before = tables@;
        assert(before == old(self).device_tables@[device_id]@);
        match find_table(&tables, IPV4_LPM) {
            Some(i) => {
                let previous = tables.remove(i);
                let table = NamedTable { name: previous.name, entries };
                proof {
                    lemma_tables_update(before, i as int, table);
                }
                tables.insert(i, table);
                assert(tables@ =~= before.update(i as int, table));
            },
            None => {
                let table = NamedTable { name: String::from_str(IPV4_LPM), entries };
                proof {
                    lemma_tables_push(before, table);
                }
                tables.push(table);
            },
        }
        assert(tables_view(tables@) == tables_view(before).insert(IPV4_LPM@, entries@));
        self.device_tables.insert(device_id, tables);
        assert(self@ =~= with_snapshot(old(self)@, device_id, entries@));
    }

    /// The IPv4 table held for the device.
    pub fn get_ipv4_lpm_entries(&self, device_id: DeviceId) -> (result: Result<
        Vec<TableEntry>,
        P4RuntimeError,
    >)
        requires
            self.wf(),
        ensures
            match result {
                Ok(entries) => self.has_device(device_id) && entries@ == self.snapshot(device_id),
                Err(e) => !self.has_device(device_id) && e == (P4RuntimeError::DeviceNotFound {
                    device_id,
                }),
            },
    {
        broadcast use group_hash_axioms;

        match self.device_tables.get(&device_id) {
            Some(tables) => {
                match find_table(tables, IPV4_LPM) {
                    Some(i) => {
                        proof {
                            lemma_table_index_unique(tables@, IPV4_LPM@, i as int);
                        }
                        Ok(copy_entries(&tables[i].entries))
                    },
                    None => Ok(Vec::new()),
                }
            },
            None => Err(P4RuntimeError::DeviceNotFound { device_id }),
        }
    }

    /// Writes an entry into the IPv4 table of a known device, in place of the
    /// entry with the same key. A prefix length above 32 is rejected.
    pub fn add_ipv4_lpm_entry(
        &mut self,
        device_id: DeviceId,
        prefix: Ipv4Address,
        prefix_len: u8,
        action: TableAction,
        priority: u32,
    ) -> (result: Result<(), P4RuntimeError>)
        requires
            old(self).wf(),
        ensures
            final(self).wf(),
            final(self).aliases() == old(self).aliases(),
            !old(self).has_device(device_id) ==> final(self)@ == old(self)@ && result == Err::<
                (),
                P4RuntimeError,
            >(P4RuntimeError::DeviceNotFound { device_id }),
            old(self).has_device(device_id) && prefix_len > 32 ==> final(self)@ == old(self)@ && (
            result matches Err(P4RuntimeError::InvalidTableEntry(m)) && m@
                == PREFIX_LENGTH_OUT_OF_RANGE@),
            old(self).has_device(device_id) && prefix_len <= 32 ==> result is Ok && final(self)@
                == with_snapshot(
                old(self)@,
                device_id,
                with_entry(
                    old(self).snapshot(device_id),
                    TableEntry { key: TableKey { ipv4_dst: prefix, prefix_len }, action, priority },
                ),
            ),
    {
        let entry = TableEntry { key: TableKey { ipv4_dst: prefix, prefix_len }, action, priority };
        let mut entries = match self.get_ipv4_lpm_entries(device_id) {
            Ok(entries) => entries,
            Err(e) => {
                return Err(e);
            },
        };
        if prefix_len > 32 {
            return Err(
                P4RuntimeError::InvalidTableEntry(String::from_str(PREFIX_LENGTH_OUT_OF_RANGE)),
            );
        }
        proof {
            self.lemma_snapshot_wf(device_id);
            lemma_with_entry(entries@, entry);
        }
        match find_entry(&entries, entry.key) {
            Some(i) => {
                proof {
                    lemma_entry_index_unique(entries@, entry.key, i as int);
                }
                entries.set(i, entry);
            },
            None => {
                entries.push(entry);
            },
        }
        self.store_snapshot(device_id, entries);
        Ok(())
    }

    /// Takes the entry for `prefix/prefix_len` out of the IPv4 table of a
    /// known device; a table without such an entry stays as it is.
    pub fn remove_ipv4_lpm_entry(
        &mut self,
        device_id: DeviceId,
        prefix: Ipv4Address,
        prefix_len: u8,
    ) -> (result: Result<(), P4RuntimeError>)
        requires
            old(self).wf(),
        ensures
            final(self).wf(),
            final(self).aliases() == old(self).aliases(),
            !old(self).has_device(device_id) ==> final(self)@ == old(self)@ && result == Err::<
                (),
                P4RuntimeError,
            >(P4RuntimeError::DeviceNotFound { device_id }),
            old(self).has_device(device_id) ==> result is Ok && final(self)@ == (if has_entry(
                old(self).snapshot(device_id),
                TableKey { ipv4_dst: prefix, prefix_len },
            ) {
                with_snapshot(
                    old(self)@,
                    device_id,
                    without_entry(
                        old(self).snapshot(device_id),
                        TableKey { ipv4_dst: prefix, prefix_len },
                    ),
                )
            } else {
                old(self)@
            }),
    {
        let key = TableKey { ipv4_dst: prefix, prefix_len };
        let mut entries = match self.get_ipv4_lpm_entries(device_id) {
            Ok(entries) => entries,
            Err(e) => {
                return Err(e);
            },
        };
        proof {
            self.lemma_snapshot_wf(device_id);
            lemma_without_entry(entries@, key);
        }
        match find_entry(&entries, key) {
            Some(i) => {
                proof {
                    lemma_entry_index_unique(entries@, key, i as int);
                }
                entries.remove(i);
                self.store_snapshot(device_id, entries);
            },
            None => {},
        }
        Ok(())
    }

    /// Longest-prefix-match lookup in the IPv4 table of a known device: the
    /// entry that covers `dst_ip` with the longest prefix; among several of
    /// that length the one of lowest priority value, and among those the one
    /// that stands last in the table.
    pub fn find_lpm_entry(&self, device_id: DeviceId, dst_ip: Ipv4Address) -> (result: Result<
        Option<TableEntry>,
        P4RuntimeError,
    >)
        requires
            self.wf(),
        ensures
            match result {
                Err(e) => !self.has_device(device_id) && e == (P4RuntimeError::DeviceNotFound {
                    device_id,
                }),
                Ok(None) => self.has_device(device_id) && !has_match(
                    entry_candidates(self.snapshot(device_id)),
                    dst_ip.0,
                ),
                Ok(Some(entry)) => self.has_device(device_id) && exists|i: int|
                    #[trigger] is_best_match(
                        entry_candidates(self.snapshot(device_id)),
                        dst_ip.0,
                        i,
                    ) && entry == self.snapshot(device_id)[i],
            },
    {
        let entries = match self.get_ipv4_lpm_entries(device_id) {
            Ok(entries) => entries,
            Err(e) => {
                return Err(e);
            },
        };
        Ok(best_entry(&entries, dst_ip))
    }

    /// What must be sent to a known device for it to hold `desired`: the
    /// entries to write, which are those of `desired` that the store does
    /// not hold in identical form, and the keys to drop, which are those of
    /// the store that `desired` does not have.
    pub fn diff(&self, device_id: DeviceId, desired: &Vec<TableEntry>) -> (result: Result<
        (Vec<TableEntry>, Vec<TableKey>),
        P4RuntimeError,
    >)
        requires
            self.wf(),
        ensures
            match result {
                Ok((upserts, deletes)) => {
                    &&& self.has_device(device_id)
                    &&& upserts@ == to_upsert(self.snapshot(device_id), desired@)
                    &&& deletes@ == to_delete(self.snapshot(device_id), desired@)
                },
                Err(e) => !self.has_device(device_id) && e == (P4RuntimeError::DeviceNotFound {
                    device_id,
                }),
            },
    {
        let current = match self.get_ipv4_lpm_entries(device_id) {
            Ok(entries) => entries,
            Err(e) => {
                return Err(e);
            },
        };
        let ghost keep = |e: TableEntry| !current@.contains(e);
        let mut upserts: Vec<TableEntry> = Vec::new();
        let mut i: usize = 0;
        while i < desired.len()
            invariant
                i <= desired@.len(),
                keep == |e: TableEntry| !current@.contains(e),
                upserts@ == desired@.take(i as int).filter(keep),
            decreases desired@.len() - i,
        {
            proof {
                assert(desired@.take(i + 1) =~= desired@.take(i as int).push(desired@[i as int]));
                desired@.take(i as int).lemma_filter_push(desired@[i as int], keep);
            }
            if !holds_entry(&current, desired[i]) {
                upserts.push(desired[i]);
            }
            i += 1;
        }
        assert(desired@.take(i as int) == desired@);
        let ghost gone = |e: TableEntry| !has_entry(desired@, e.key);
        let ghost key_of = |e: TableEntry| e.key;
        let mut deletes: Vec<TableKey> = Vec::new();
        let mut j: usize = 0;
        while j < current.len()
            invariant
                j <= current@.len(),
                gone == |e: TableEntry| !has_entry(desired@, e.key),
                key_of == |e: TableEntry| e.key,
                deletes@ == current@.take(j as int).filter(gone).map_values(key_of),
            decreases current@.len() - j,
        {
            proof {
                assert(current@.take(j + 1) =~= current@.take(j as int).push(current@[j as int]));
                current@.take(j as int).lemma_filter_push(current@[j as int], gone);
                assert(current@.take(j as int).filter(gone).push(current@[j as int]).map_values(
                    key_of,
                ) =~= current@.take(j as int).filter(gone).map_values(key_of).push(
                    current@[j as int].key,
                ));
            }
            match find_entry(desired, current[j].key) {
                Some(_) => {},
                None => {
                    deletes.push(current[j].key);
                },
            }
            j += 1;
        }
        assert(current@.take(j as int) == current@);
        Ok((upserts, deletes))
    }

    /// The IPv4 table of every device that has one.
    pub fn get_all_ipv4_lpm_entries(&self) -> (result: HashMap<DeviceId, Vec<TableEntry>>)
        requires
            self.wf(),
        ensures
            forall|d: DeviceId| #[trigger]
                result@.contains_key(d) <==> self.has_device(d) && self@[d].contains_key(IPV4_LPM@),
            forall|d: DeviceId| #[trigger]
                result@.contains_key(d) ==> result@[d]@ == self.snapshot(d),
    {
        broadcast use group_hash_axioms;

        let ghost items = spec_hash_map_iter(&self.device_tables).remaining();
        let ghost m = self.device_tables@;
        let mut result: HashMap<DeviceId, Vec<TableEntry>> = HashMap::new();
        for (device_id, tables) in it: self.device_tables.iter()
            invariant
                it.seq() == items,
                m == self.device_tables@,
                self.wf(),
                forall|d: DeviceId| #[trigger]
                    result@.contains_key(d) ==> m.contains_key(d) && has_table(m[d]@, IPV4_LPM@)
                        && result@[d]@ == tables_view(m[d]@)[IPV4_LPM@],
                forall|j: int|
                    0 <= j < it.index() && has_table((#[trigger] items[j]).1@, IPV4_LPM@)
                        ==> result@.contains_key(*items[j].0),
        {
            proof {
                assert(m.contains_key(*items[it.index()].0));
            }
            match find_table(tables, IPV4_LPM) {
                Some(i) => {
                    proof {
                        lemma_table_index_unique(tables@, IPV4_LPM@, i as int);
                    }
                    result.insert(*device_id, copy_entries(&tables[i].entries));
                },
                None => {},
            }
        }
        proof {
            assert forall|d: DeviceId| #[trigger]
                result@.contains_key(d) <==> self.has_device(d) && self@[d].contains_key(
                    IPV4_LPM@,
                ) by {
                if self.has_device(d) && self@[d].contains_key(IPV4_LPM@) {
                    assert(items.contains((&d, &m[d])));
                    let j = choose|j: int| 0 <= j < items.len() && items[j] == (&d, &m[d]);
                    assert(has_table(items[j].1@, IPV4_LPM@));
                }
            }
        }
        result
    }

    /// Every table of a known device, with its name.
    pub fn get_all_device_entries(&self, device_id: DeviceId) -> (result: Result<
        Vec<NamedTable>,
        P4RuntimeError,
    >)
        requires
            self.wf(),
        ensures
            match result {
                Ok(tables) => self.has_device(device_id) && tables_wf(tables@) && tables_view(
                    tables@,
                ) == self@[device_id],
                Err(e) => !self.has_device(device_id) && e == (P4RuntimeError::DeviceNotFound {
                    device_id,
                }),
            },
    {
        broadcast use group_hash_axioms;

        match self.device_tables.get(&device_id) {
            Some(tables) => {
                let mut out: Vec<NamedTable> = Vec::new();
                let mut i: usize = 0;
                while i < tables.len()
                    invariant
                        i <= tables@.len(),
                        out@.len() == i,
                        forall|j: int|
                            0 <= j < i ==> (#[trigger] tables@[j]).name@ == out@[j].name@
                                && tables@[j].entries@ == out@[j].entries@,
                    decreases tables@.len() - i,
                {
                    out.push(
                        NamedTable {
                            name: tables[i].name.clone(),
                            entries: copy_entries(&tables[i].entries),
                        },
                    );
                    i += 1;
                }
                proof {
                    lemma_tables_view_agrees(tables@, out@);
                }
                Ok(out)
            },
            None => Err(P4RuntimeError::DeviceNotFound { device_id }),
        }
    }

    /// The number of entries in each table of a known device, by table name.
    pub fn get_table_statistics(&self, device_id: DeviceId) -> (result: Result<
        Vec<(String, usize)>,
        P4RuntimeError,
    >)
        requires
            self.wf(),
        ensures
            match result {
                Ok(counts) => self.has_device(device_id) && counts_of(counts@, self@[device_id]),
                Err(e) => !self.has_device(device_id) && e == (P4RuntimeError::DeviceNotFound {
                    device_id,
                }),
            },
    {
        broadcast use group_hash_axioms;

        match self.device_tables.get(&device_id) {
            Some(tables) => {
                let mut out: Vec<(String, usize)> = Vec::new();
                let mut i: usize = 0;
                while i < tables.len()
                    invariant
                        i <= tables@.len(),
                        out@.len() == i,
                        forall|j: int|
                            0 <= j < i ==> (#[trigger] out@[j]).0@ == tables@[j].name@ && out@[j].1
                                == tables@[j].entries@.len(),
                    decreases tables@.len() - i,
                {
                    out.push((tables[i].name.clone(), tables[i].entries.len()));
                    i += 1;
                }
                proof {
                    assert forall|k: int| 0 <= k < out@.len() implies self@[device_id].contains_key(
                        (#[trigger] out@[k]).0@,
                    ) && out@[k].1 == self@[device_id][out@[k].0@].len() by {
                        lemma_table_index_unique(tables@, tables@[k].name@, k);
                    }
                    assert forall|name: Seq<char>| #[trigger]
                        self@[device_id].contains_key(name) implies exists|k: int|
                        0 <= k < out@.len() && (#[trigger] out@[k]).0@ == name by {
                        let k = table_index(tables@, name);
                        assert(table_named(tables@, name, k));
                        assert(out@[k].0@ == name);
                    }
                    assert forall|a: int, b: int|
                        0 <= a < out@.len() && 0 <= b < out@.len() && a != b implies (
                    #[trigger] out@[a]).0@ != (#[trigger] out@[b]).0@ by {
                        assert(tables@[a].name@ != tables@[b].name@);
                    }
                    assert(counts_of(out@, self@[device_id]));
                }
                Ok(out)
            },
            None => Err(P4RuntimeError::DeviceNotFound { device_id }),
        }
    }

    /// Records that a known device now holds exactly `applied`. Entries that
    /// do not form a well-formed set are rejected and leave the store as it
    /// was.
    pub fn commit(&mut self, device_id: DeviceId, applied: Vec<TableEntry>) -> (result: Result<
        (),
        P4RuntimeError,
    >)
        requires
            old(self).wf(),
        ensures
            final(self).wf(),
            final(self).aliases() == old(self).aliases(),
            !old(self).has_device(device_id) ==> final(self)@ == old(self)@ && result == Err::<
                (),
                P4RuntimeError,
            >(P4RuntimeError::DeviceNotFound { device_id }),
            old(self).has_device(device_id) && !entries_wf(applied@) ==> final(self)@ == old(self)@
                && (result matches Err(P4RuntimeError::InvalidTableEntry(m)) && m@
                == MALFORMED_ENTRY_SET@),
            old(self).has_device(device_id) && entries_wf(applied@) ==> result is Ok && final(self)@
                == with_snapshot(old(self)@, device_id, applied@),
    {
        broadcast use group_hash_axioms;

        if !self.device_tables.contains_key(&device_id) {
            return Err(P4RuntimeError::DeviceNotFound { device_id });
        }
        if !check_entries(&applied) {
            return Err(P4RuntimeError::InvalidTableEntry(String::from_str(MALFORMED_ENTRY_SET)));
        }
        self.store_snapshot(device_id, applied);
        Ok(())
    }
}

impl Default for TableManager {
    fn default() -> (r: Self)
        ensures
            r.wf(),
            r@ == Map::<DeviceId, Map<Seq<char>, Seq<TableEntry>>>::empty(),
            r.aliases() == Seq::<(Seq<char>, Seq<char>)>::empty(),
    {
        TableManager::new()
    }
}

/// The message of the error for an entry built without a prefix.
pub const MISSING_PREFIX: &'static str = "Missing prefix";

/// The message of the error for an entry built without a prefix length.
pub const MISSING_PREFIX_LENGTH: &'static str = "Missing prefix length";

/// The message of the error for an entry built without an action.
pub const MISSING_ACTION: &'static str = "Missing action";

/// Step-by-step construction of a [`TableEntry`].
#[derive(Debug)]
pub struct TableEntryBuilder {
    device_id: Option<DeviceId>,
    prefix: Option<Ipv4Address>,
    prefix_len: Option<u8>,
    action: Option<TableAction>,
    priority: u32,
}

/// What a [`TableEntryBuilder`] has been given so far.
pub struct TableEntryBuilderView {
    pub device_id: Option<DeviceId>,
    pub prefix: Option<Ipv4Address>,
    pub prefix_len: Option<u8>,
    pub action: Option<TableAction>,
    pub priority: u32,
}

impl View for TableEntryBuilder {
    type V = TableEntryBuilderView;

    closed spec fn view(&self) -> TableEntryBuilderView {
        TableEntryBuilderView {
            device_id: self.device_id,
            prefix: self.prefix,
            prefix_len: self.prefix_len,
            action: self.action,
            priority: self.priority,
        }
    }
}

impl TableEntryBuilder {
    /// A builder that has been given nothing; the priority starts at 0.
    pub fn new() -> (r: Self)
        ensures
            r@ == (TableEntryBuilderView {
                device_id: None,
                prefix: None,
                prefix_len: None,
                action: None,
                priority: 0,
            }),
    {
        TableEntryBuilder {
            device_id: None,
            prefix: None,
            prefix_len: None,
            action: None,
            priority: 0,
        }
    }

    /// Sets the device that the entry is meant for.
    pub fn device_id(self, device_id: DeviceId) -> (r: Self)
        ensures
            r@ == (TableEntryBuilderView { device_id: Some(device_id), ..self@ }),
    {
        let mut b = self;
        b.device_id = Some(device_id);
        b
    }

    /// Sets the prefix.
    pub fn prefix(self, prefix: Ipv4Address) -> (r: Self)
        ensures
            r@ == (TableEntryBuilderView { prefix: Some(prefix), ..self@ }),
    {
        let mut b = self;
        b.prefix = Some(prefix);
        b
    }

    /// Sets the prefix length.
    pub fn prefix_len(self, prefix_len: u8) -> (r: Self)
        ensures
            r@ == (TableEntryBuilderView { prefix_len: Some(prefix_len), ..self@ }),
    {
        let mut b = self;
        b.prefix_len = Some(prefix_len);
        b
    }

    /// Sets the action.
    pub fn action(self, action: TableAction) -> (r: Self)
        ensures
            r@ == (TableEntryBuilderView { action: Some(action), ..self@ }),
    {
        let mut b = self;
        b.action = Some(action);
        b
    }

    /// Sets the priority.
    pub fn priority(self, priority: u32) -> (r: Self)
        ensures
            r@ == (TableEntryBuilderView { priority, ..self@ }),
    {
        let mut b = self;
        b.priority = priority;
        b
    }

    /// The entry that was described, or an error that names the first of
    /// prefix, prefix length and action that was not given.
    pub fn build(self) -> (result: Result<TableEntry, P4RuntimeError>)
        ensures
            match result {
                Ok(entry) => {
                    &&& self@.prefix == Some(entry.key.ipv4_dst)
                    &&& self@.prefix_len == Some(entry.key.prefix_len)
                    &&& self@.action == Some(entry.action)
                    &&& self@.priority == entry.priority
                },
                Err(e) => {
                    &&& e matches P4RuntimeError::InvalidTableEntry(m)
                    &&& m@ == (if self@.prefix is None {
                        MISSING_PREFIX@
                    } else if self@.prefix_len is None {
                        MISSING_PREFIX_LENGTH@
                    } else {
                        MISSING_ACTION@
                    })
                },
            },
            result is Ok <==> self@.prefix is Some && self@.prefix_len is Some && self@.action
                is Some,
    {
        let prefix = match self.prefix {
            Some(p) => p,
            None => {
                return Err(P4RuntimeError::InvalidTableEntry(String::from_str(MISSING_PREFIX)));
            },
        };
        let prefix_len = match self.prefix_len {
            Some(l) => l,
            None => {
                return Err(
                    P4RuntimeError::InvalidTableEntry(String::from_str(MISSING_PREFIX_LENGTH)),
                );
            },
        };
        let action = match self.action {
            Some(a) => a,
            None => {
                return Err(P4RuntimeError::InvalidTableEntry(String::from_str(MISSING_ACTION)));
            },
        };
        Ok(
            TableEntry {
                key: TableKey { ipv4_dst: prefix, prefix_len },
                action,
                priority: self.priority,
            },
        )
    }
}

impl Default for TableEntryBuilder {
    fn default() -> (r: Self)
        ensures
            r@ == (TableEntryBuilderView {
                device_id: None,
                prefix: None,
                prefix_len: None,
                action: None,
                priority: 0,
            }),
    {
        TableEntryBuilder::new()
    }
}

} // verus!
