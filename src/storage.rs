use vstd::prelude::*;
use vstd::rwlock::{RwLock, RwLockPredicate};
use vstd::string::StringExecFns;
use crate::error::KvError;
use crate::message::{Kvpair, Value, ValueModel};

verus! {

/// Table-scoped key-value operations that the service runs requests against.
/// An implementation may be shared between threads and changed by any of
/// them, so each operation states what it may return for its arguments
/// rather than a result fixed by earlier calls.
pub trait Storage {
    /// Whether `r` may be what `get` returns for `key` of `table`.
    spec fn get_result(&self, table: Seq<char>, key: Seq<char>, r: Result<Option<Value>, KvError>) -> bool;

    /// Whether `r` may be what `set` returns when it stores `value` under
    /// `key` of `table`.
    spec fn set_result(
        &self,
        table: Seq<char>,
        key: Seq<char>,
        value: ValueModel,
        r: Result<Option<Value>, KvError>,
    ) -> bool;

    /// Whether `r` may be what `get_all` returns for `table`.
    spec fn get_all_result(&self, table: Seq<char>, r: Result<Vec<Kvpair>, KvError>) -> bool;

    /// The value stored under `key` in `table`, if any.
    fn get(&self, table: &str, key: &str) -> (r: Result<Option<Value>, KvError>)
        ensures
            self.get_result(table@, key@, r),
    ;

    /// Store `value` under `key` in `table`, returning the value it replaces.
    fn set(&self, table: &str, key: String, value: Value) -> (r: Result<Option<Value>, KvError>)
        ensures
            self.set_result(table@, key@, value@, r),
    ;

    /// Every pair of `table`.
    fn get_all(&self, table: &str) -> (r: Result<Vec<Kvpair>, KvError>)
        ensures
            self.get_all_result(table@, r),
    ;
}

/// The model of an optional value.
pub open spec fn option_model(o: Option<Value>) -> Option<ValueModel> {
    match o {
        Some(v) => Some(v@),
        None => None,
    }
}

/// One stored value with the table and key it belongs to.
pub struct Entry {
    pub table: String,
    pub key: String,
    pub value: Value,
}

impl View for Entry {
    type V = (Seq<char>, Seq<char>, ValueModel);

    open spec fn view(&self) -> (Seq<char>, Seq<char>, ValueModel) {
        (self.table@, self.key@, self.value@)
    }
}

/// The model of stored entries: table, key and value, in order of first insertion.
pub type EntriesModel = Seq<(Seq<char>, Seq<char>, ValueModel)>;

/// No two entries share both table and key.
pub open spec fn entries_unique(s: EntriesModel) -> bool {
    forall|i: int, j: int|
        0 <= i < s.len() && 0 <= j < s.len() && i != j ==> !(#[trigger] s[i].0 == #[trigger] s[j].0
            && s[i].1 == s[j].1)
}

/// Whether entry `i` holds `key` of `table`.
pub open spec fn holds_at(s: EntriesModel, i: int, table: Seq<char>, key: Seq<char>) -> bool {
    0 <= i < s.len() && s[i].0 == table && s[i].1 == key
}

/// The value stored under `key` in `table`.
pub open spec fn lookup(s: EntriesModel, table: Seq<char>, key: Seq<char>) -> Option<ValueModel> {
    if exists|i: int| holds_at(s, i, table, key) {
        Some(s[choose|i: int| holds_at(s, i, table, key)].2)
    } else {
        None
    }
}

/// The pairs of `table`, in the order of the entries.
pub open spec fn table_pairs(s: EntriesModel, table: Seq<char>) -> Seq<(Seq<char>, ValueModel)>
    decreases s.len(),
{
    if s.len() == 0 {
        Seq::empty()
    } else {
        let rest = table_pairs(s.drop_last(), table);
        if s.last().0 == table {
            rest.push((s.last().1, s.last().2))
        } else {
            rest
        }
    }
}

/// The entries after `set`: the value of an existing key is replaced in place,
/// a new key is appended.
pub open spec fn set_entries(
    s: EntriesModel,
    table: Seq<char>,
    key: Seq<char>,
    value: ValueModel,
) -> EntriesModel {
    if exists|i: int| holds_at(s, i, table, key) {
        s.update(choose|i: int| holds_at(s, i, table, key), (table, key, value))
    } else {
        s.push((table, key, value))
    }
}

/// Tables held by one owner, each a namespace of unique keys.
pub struct Tables {
    entries: Vec<Entry>,
}

impl View for Tables {
    type V = EntriesModel;

    closed spec fn view(&self) -> EntriesModel {
        self.entries@.map_values(|e: Entry| e@)
    }
}

impl Tables {
    pub open spec fn wf(&self) -> bool {
        entries_unique(self@)
    }

    pub fn new() -> (r: Tables)
        ensures
            r.wf(),
            r@ == EntriesModel::empty(),
    {
        let r = Tables { entries: Vec::new() };
        assert(r@ =~= EntriesModel::empty());
        r
    }

    fn position(&self, table: &String, key: &String) -> (r: Option<usize>)
        requires
            self.wf(),
        ensures
            match r {
                Some(i) => holds_at(self@, i as int, table@, key@),
                None => !exists|i: int| holds_at(self@, i, table@, key@),
            },
    {
        let mut i: usize = 0;
        while i < self.entries.len()
            invariant
                i <= self@.len(),
                self@.len() == self.entries@.len(),
                self@ == self.entries@.map_values(|e: Entry| e@),
                forall|j: int| 0 <= j < i ==> !holds_at(self@, j, table@, key@),
            decreases self.entries@.len() - i,
        {
            let e = &self.entries[i];
            if e.table.eq(table) && e.key.eq(key) {
                return Some(i);
            }
            i = i + 1;
        }
        None
    }

    /// The value stored under `key` in `table`, if any.
    pub fn get(&self, table: &str, key: &str) -> (r: Option<Value>)
        requires
            self.wf(),
        ensures
            match r {
                Some(v) => lookup(self@, table@, key@) == Some(v@),
                None => lookup(self@, table@, key@) is None,
            },
    {
        let t = String::from_str(table);
        let k = String::from_str(key);
        match self.position(&t, &k) {
            Some(i) => {
                assert(self@[i as int] == self.entries@[i as int]@);
                Some(self.entries[i].value.duplicate())
            },
            None => None,
        }
    }

    /// Store `value` under `key` in `table`, returning the value it replaces.
    pub fn set(&mut self, table: &str, key: String, value: Value) -> (r: Option<Value>)
        requires
            old(self).wf(),
        ensures
            final(self).wf(),
            final(self)@ == set_entries(old(self)@, table@, key@, value@),
            match r {
                Some(v) => lookup(old(self)@, table@, key@) == Some(v@),
                None => lookup(old(self)@, table@, key@) is None,
            },
    {
        proof {
            lemma_set_then_get(self@, table@, key@, value@, table@, key@);
        }
        let t = String::from_str(table);
        match self.position(&t, &key) {
            Some(i) => {
                let ghost s = self@;
                assert(s[i as int] == self.entries@[i as int]@);
                let e = Entry { table: t, key, value };
                let ghost ev = e@;
                let prev = self.entries[i].value.duplicate();
                self.entries.set(i, e);
                proof {
                    let c = choose|j: int| holds_at(s, j, table@, key@);
                    assert(c == i);
                    assert(self@ =~= s.update(i as int, ev));
                }
                Some(prev)
            },
            None => {
                let ghost s = self@;
                let e = Entry { table: t, key, value };
                self.entries.push(e);
                assert(self@ =~= s.push((table@, key@, value@)));
                None
            },
        }
    }

    /// Every pair of `table`, in the order their keys were first stored.
    pub fn get_all(&self, table: &str) -> (r: Vec<Kvpair>)
        ensures
            crate::message::pairs_model(r@) == table_pairs(self@, table@),
    {
        let t = String::from_str(table);
        let mut out: Vec<Kvpair> = Vec::new();
        let mut i: usize = 0;
        while i < self.entries.len()
            invariant
                i <= self@.len(),
                self@.len() == self.entries@.len(),
                self@ == self.entries@.map_values(|e: Entry| e@),
                t@ == table@,
                crate::message::pairs_model(out@) == table_pairs(self@.subrange(0, i as int), table@),
            decreases self.entries@.len() - i,
        {
            let e = &self.entries[i];
            let ghost before = out@;
            assert(self@.subrange(0, i + 1).drop_last() =~= self@.subrange(0, i as int));
            assert(self@[i as int] == e@);
            if e.table.eq(&t) {
                out.push(Kvpair { key: e.key.clone(), value: e.value.duplicate() });
                assert(crate::message::pairs_model(out@) =~= crate::message::pairs_model(before).push(
                    (e.key@, e.value@),
                ));
            }
            i = i + 1;
        }
        assert(self@.subrange(0, self@.len() as int) =~= self@);
        out
    }
}

/// The lock invariant of a `MemTable`: its tables keep keys unique.
pub struct TablesWf;

impl RwLockPredicate<Tables> for TablesWf {
    open spec fn inv(self, v: Tables) -> bool {
        v.wf()
    }
}

/// In-memory storage that many threads can share, guarded by a read-write lock.
pub struct MemTable {
    tables: RwLock<Tables, TablesWf>,
}

impl MemTable {
    pub fn new() -> (r: MemTable) {
        MemTable { tables: RwLock::new(Tables::new(), Ghost(TablesWf)) }
    }
}

impl Storage for MemTable {
    /// Always succeeds, with what the tables held at the moment of the read.
    open spec fn get_result(&self, table: Seq<char>, key: Seq<char>, r: Result<Option<Value>, KvError>) -> bool {
        r matches Ok(o) && exists|s: EntriesModel| entries_unique(s) && #[trigger] lookup(s, table, key) == option_model(o)
    }

    /// Always succeeds, with what the key held just before the write, which
    /// leaves `value` under the key and every other key as it was.
    open spec fn set_result(
        &self,
        table: Seq<char>,
        key: Seq<char>,
        value: ValueModel,
        r: Result<Option<Value>, KvError>,
    ) -> bool {
        r matches Ok(o) && exists|s: EntriesModel|
            entries_unique(s) && #[trigger] lookup(s, table, key) == option_model(o)
                && lookup(set_entries(s, table, key, value), table, key) == Some(value)
    }

    /// Always succeeds, with the pairs the table held at the moment of the read.
    open spec fn get_all_result(&self, table: Seq<char>, r: Result<Vec<Kvpair>, KvError>) -> bool {
        r matches Ok(p) && exists|s: EntriesModel|
            entries_unique(s) && #[trigger] table_pairs(s, table) == crate::message::pairs_model(p@)
    }

    fn get(&self, table: &str, key: &str) -> (r: Result<Option<Value>, KvError>) {
        let handle = self.tables.acquire_read();
        let tables = handle.borrow();
        let found = tables.get(table, key);
        assert(lookup(tables@, table@, key@) == option_model(found));
        handle.release_read();
        Ok(found)
    }

    fn set(&self, table: &str, key: String, value: Value) -> (r: Result<Option<Value>, KvError>) {
        let (mut tables, handle) = self.tables.acquire_write();
        let ghost before = tables@;
        proof {
            lemma_set_then_get(before, table@, key@, value@, table@, key@);
        }
        let prev = tables.set(table, key, value);
        assert(lookup(before, table@, key@) == option_model(prev));
        handle.release_write(tables);
        Ok(prev)
    }

    fn get_all(&self, table: &str) -> (r: Result<Vec<Kvpair>, KvError>) {
        let handle = self.tables.acquire_read();
        let tables = handle.borrow();
        let pairs = tables.get_all(table);
        assert(table_pairs(tables@, table@) == crate::message::pairs_model(pairs@));
        handle.release_read();
        Ok(pairs)
    }
}

/// After `set` of `key` in `table`, `get` of that key gives the value stored,
/// and every other key of every table keeps its value.
pub proof fn lemma_set_then_get(
    s: EntriesModel,
    table: Seq<char>,
    key: Seq<char>,
    value: ValueModel,
    other_table: Seq<char>,
    other_key: Seq<char>,
)
    requires
        entries_unique(s),
    ensures
        entries_unique(set_entries(s, table, key, value)),
        lookup(set_entries(s, table, key, value), table, key) == Some(value),
        !(other_table == table && other_key == key) ==> lookup(
            set_entries(s, table, key, value),
            other_table,
            other_key,
        ) == lookup(s, other_table, other_key),
{
    let n = set_entries(s, table, key, value);
    let at = if exists|i: int| holds_at(s, i, table, key) {
        choose|i: int| holds_at(s, i, table, key)
    } else {
        s.len() as int
    };
    assert(n.len() == s.len() || n.len() == s.len() + 1);
    assert(holds_at(n, at, table, key));
    assert forall|i: int| 0 <= i < n.len() && i != at ==> #[trigger] n[i] == s[i] by {}
    assert forall|i: int, j: int|
        0 <= i < n.len() && 0 <= j < n.len() && i != j implies !(#[trigger] n[i].0 == #[trigger] n[j].0
            && n[i].1 == n[j].1) by {
        if i != at && j != at {
            assert(n[i] == s[i] && n[j] == s[j]);
        } else if i == at {
            assert(n[j] == s[j]);
            if n[j].0 == table && n[j].1 == key {
                assert(holds_at(s, j, table, key));
            }
        } else {
            assert(n[i] == s[i]);
            if n[i].0 == table && n[i].1 == key {
                assert(holds_at(s, i, table, key));
            }
        }
    }
    let d = choose|i: int| holds_at(n, i, table, key);
    assert(holds_at(n, d, table, key));
    assert(d == at);
    if !(other_table == table && other_key == key) {
        assert forall|i: int| holds_at(n, i, other_table, other_key) <==> holds_at(
            s,
            i,
            other_table,
            other_key,
        ) by {
            if 0 <= i < n.len() && i != at {
                assert(n[i] == s[i]);
            }
        }
        if exists|i: int| holds_at(s, i, other_table, other_key) {
            let a = choose|i: int| holds_at(s, i, other_table, other_key);
            let b = choose|i: int| holds_at(n, i, other_table, other_key);
            assert(holds_at(n, a, other_table, other_key));
            assert(holds_at(s, b, other_table, other_key));
            assert(a == b);
            assert(n[a] == s[a]);
        }
    }
}

/// Two writes to different keys, applied one after the other as the lock
/// orders them, are both kept: neither loses the other's update.
pub proof fn lemma_disjoint_sets_kept(
    s: EntriesModel,
    table: Seq<char>,
    key_a: Seq<char>,
    value_a: ValueModel,
    key_b: Seq<char>,
    value_b: ValueModel,
)
    requires
        entries_unique(s),
        key_a != key_b,
    ensures
        ({
            let n = set_entries(set_entries(s, table, key_a, value_a), table, key_b, value_b);
            &&& lookup(n, table, key_a) == Some(value_a)
            &&& lookup(n, table, key_b) == Some(value_b)
        }),
{
    let m = set_entries(s, table, key_a, value_a);
    lemma_set_then_get(s, table, key_a, value_a, table, key_a);
    lemma_set_then_get(m, table, key_b, value_b, table, key_a);
}

} // verus!
