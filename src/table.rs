//! The versioned table: three columns, each an ordered mapping from
//! (user key, timestamp) to a value.
use vstd::prelude::*;

verus! {

/// A table key: a user key and a timestamp.
pub type Key = (Vec<u8>, u64);

/// The three logical columns of the table.
#[derive(Clone, Copy, PartialEq, Eq, Structural)]
pub enum Column {
    Write,
    Data,
    Lock,
}

/// What a column cell holds: a start timestamp (Write column) or bytes
/// (Data column: the value; Lock column: the primary key).
pub enum Value {
    Timestamp(u64),
    Vector(Vec<u8>),
}

/// The mathematical model of a `Value`.
pub enum ValueView {
    Timestamp(u64),
    Vector(Seq<u8>),
}

impl View for Value {
    type V = ValueView;

    open spec fn view(&self) -> ValueView {
        match self {
            Value::Timestamp(ts) => ValueView::Timestamp(*ts),
            Value::Vector(v) => ValueView::Vector(v@),
        }
    }
}

impl Value {
    /// The timestamp held by a `Timestamp` value.
    pub fn unwrap_ts(self) -> (r: u64)
        requires
            self is Timestamp,
        ensures
            self@ == ValueView::Timestamp(r),
    {
        match self {
            Value::Timestamp(ts) => ts,
            Value::Vector(_) => 0,
        }
    }

    /// The bytes held by a `Vector` value.
    pub fn unwrap_vec(self) -> (r: Vec<u8>)
        requires
            self is Vector,
        ensures
            self@ == ValueView::Vector(r@),
    {
        match self {
            Value::Vector(v) => v,
            Value::Timestamp(_) => Vec::new(),
        }
    }

    /// A copy of this value.
    pub fn duplicate(&self) -> (r: Value)
        ensures
            r@ == self@,
    {
        match self {
            Value::Timestamp(ts) => Value::Timestamp(*ts),
            Value::Vector(v) => Value::Vector(copy_bytes(v)),
        }
    }
}

/// A fresh copy of a byte string.
pub fn copy_bytes(v: &Vec<u8>) -> (r: Vec<u8>)
    ensures
        r@ == v@,
{
    let mut r: Vec<u8> = Vec::new();
    let mut i: usize = 0;
    while i < v.len()
        invariant
            i <= v@.len(),
            r@ == v@.subrange(0, i as int),
        decreases v@.len() - i,
    {
        r.push(v[i]);
        i = i + 1;
        assert(r@ =~= v@.subrange(0, i as int));
    }
    assert(r@ =~= v@);
    r
}

/// Whether two byte strings are equal.
pub fn same_bytes(a: &Vec<u8>, b: &Vec<u8>) -> (r: bool)
    ensures
        r == (a@ == b@),
{
    if a.len() != b.len() {
        return false;
    }
    let mut i: usize = 0;
    while i < a.len()
        invariant
            a@.len() == b@.len(),
            i <= a@.len(),
            forall|j: int| 0 <= j < i ==> a@[j] == b@[j],
        decreases a@.len() - i,
    {
        if a[i] != b[i] {
            return false;
        }
        i = i + 1;
    }
    assert(a@ =~= b@);
    true
}


/// The model of a column: (user key, timestamp) to value.
pub type ColumnView = Map<(Seq<u8>, u64), ValueView>;

/// One cell of a column.
pub struct Cell {
    pub key: Key,
    pub value: Value,
}

/// The model key of a cell.
pub open spec fn cell_key(c: Cell) -> (Seq<u8>, u64) {
    (c.key.0@, c.key.1)
}

/// Whether `ts` lies in the window `[lo ?? 0, hi ?? MAX]`.
pub open spec fn in_window(ts: u64, lo: Option<u64>, hi: Option<u64>) -> bool {
    &&& (lo is None || lo->0 <= ts)
    &&& (hi is None || ts <= hi->0)
}

/// Whether `m` holds a version of `key` inside the window.
pub open spec fn has_version(m: ColumnView, key: Seq<u8>, lo: Option<u64>, hi: Option<u64>) -> bool {
    exists|t: u64| #[trigger] m.contains_key((key, t)) && in_window(t, lo, hi)
}

/// Whether `t` is the largest timestamp of a version of `key` inside the window.
pub open spec fn is_latest(
    m: ColumnView,
    key: Seq<u8>,
    lo: Option<u64>,
    hi: Option<u64>,
    t: u64,
) -> bool {
    &&& m.contains_key((key, t))
    &&& in_window(t, lo, hi)
    &&& forall|u: u64| #[trigger] m.contains_key((key, u)) && in_window(u, lo, hi) ==> u <= t
}

/// `m` without the versions of `key` at or below `upto`.
pub open spec fn erase_upto(m: ColumnView, key: Seq<u8>, upto: u64) -> ColumnView {
    m.restrict(Set::new(|p: (Seq<u8>, u64)| !(p.0 == key && p.1 <= upto)))
}

/// Which versions of a key a removal takes.
#[derive(Clone, Copy, Debug, PartialEq, Eq, Structural)]
pub enum Removal {
    /// Every version at or below this timestamp.
    UpTo(u64),
    /// The version at exactly this timestamp.
    At(u64),
    /// Every version whose value is this timestamp (a commit record naming a start).
    Naming(u64),
}

/// Whether `rule` takes the version at `ts` holding `v`.
pub open spec fn removes(rule: Removal, ts: u64, v: ValueView) -> bool {
    match rule {
        Removal::UpTo(u) => ts <= u,
        Removal::At(t) => ts == t,
        Removal::Naming(s) => v == ValueView::Timestamp(s),
    }
}

/// `m` without the versions of `key` that `rule` takes.
pub open spec fn remove_cells(m: ColumnView, key: Seq<u8>, rule: Removal) -> ColumnView {
    m.restrict(Set::new(|p: (Seq<u8>, u64)| !(p.0 == key && removes(rule, p.1, m[p]))))
}

fn removal_applies(rule: Removal, ts: u64, v: &Value) -> (r: bool)
    ensures
        r == removes(rule, ts, v@),
{
    match rule {
        Removal::UpTo(u) => ts <= u,
        Removal::At(t) => ts == t,
        Removal::Naming(s) => match v {
            Value::Timestamp(x) => *x == s,
            Value::Vector(_) => false,
        },
    }
}

/// Cells and model agree: every cell is in the model with its value, every model
/// key has a cell, and no two cells share a key.
pub open spec fn cells_match(cells: Seq<Cell>, m: ColumnView) -> bool {
    &&& forall|i: int|
        0 <= i < cells.len() ==> #[trigger] m.contains_key(cell_key(cells[i])) && m[cell_key(
            cells[i],
        )] == cells[i].value@
    &&& forall|p: (Seq<u8>, u64)|
        #[trigger] m.contains_key(p) ==> exists|i: int|
            0 <= i < cells.len() && #[trigger] cell_key(cells[i]) == p
    &&& forall|i: int, j: int|
        0 <= i < j < cells.len() ==> cell_key(#[trigger] cells[i]) != cell_key(#[trigger] cells[j])
}

/// One column of the table, kept as a vector of cells with distinct keys.
pub struct VersionedColumn {
    cells: Vec<Cell>,
    model: Ghost<ColumnView>,
}

impl View for VersionedColumn {
    type V = ColumnView;

    closed spec fn view(&self) -> ColumnView {
        self.model@
    }
}

impl VersionedColumn {
    pub closed spec fn wf(&self) -> bool {
        cells_match(self.cells@, self.model@)
    }

    /// An empty column.
    pub fn new() -> (r: VersionedColumn)
        ensures
            r.wf(),
            r@ == Map::<(Seq<u8>, u64), ValueView>::empty(),
    {
        VersionedColumn { cells: Vec::new(), model: Ghost(Map::empty()) }
    }

    /// The index of the cell with the largest timestamp of `key` in the window.
    fn latest_index(&self, key: &Vec<u8>, lo: Option<u64>, hi: Option<u64>) -> (r: Option<usize>)
        requires
            self.wf(),
        ensures
            r is None <==> !has_version(self@, key@, lo, hi),
            r matches Some(i) ==> i < self.cells@.len() && cell_key(self.cells@[i as int]).0
                == key@ && is_latest(self@, key@, lo, hi, self.cells@[i as int].key.1),
    {
        let mut best: Option<usize> = None;
        let mut i: usize = 0;
        while i < self.cells.len()
            invariant
                self.wf(),
                i <= self.cells@.len(),
                best is None ==> forall|j: int|
                    0 <= j < i ==> !(#[trigger] self.cells@[j].key.0@ == key@ && in_window(
                        self.cells@[j].key.1,
                        lo,
                        hi,
                    )),
                best matches Some(b) ==> b < i && self.cells@[b as int].key.0@ == key@ && in_window(
                    self.cells@[b as int].key.1,
                    lo,
                    hi,
                ) && forall|j: int|
                    0 <= j < i && #[trigger] self.cells@[j].key.0@ == key@ && in_window(
                        self.cells@[j].key.1,
                        lo,
                        hi,
                    ) ==> self.cells@[j].key.1 <= self.cells@[b as int].key.1,
            decreases self.cells@.len() - i,
        {
            let c = &self.cells[i];
            let ts = c.key.1;
            let inside = match lo {
                Some(l) => l <= ts,
                None => true,
            } && match hi {
                Some(h) => ts <= h,
                None => true,
            };
            if inside && same_bytes(&c.key.0, key) {
                match best {
                    None => {
                        best = Some(i);
                    },
                    Some(b) => {
                        if self.cells[b].key.1 < ts {
                            best = Some(i);
                        }
                    },
                }
            }
            i = i + 1;
        }
        proof {
            let cells = self.cells@;
            let m = self@;
            match best {
                None => {
                    if has_version(m, key@, lo, hi) {
                        let t = choose|t: u64| #[trigger] m.contains_key((key@, t)) && in_window(t, lo, hi);
                        let j = choose|j: int| 0 <= j < cells.len() && #[trigger] cell_key(cells[j]) == (key@, t);
                        assert(cells[j].key.0@ == key@);
                    }
                },
                Some(b) => {
                    assert(m.contains_key(cell_key(cells[b as int])));
                    assert forall|u: u64| #[trigger] m.contains_key((key@, u)) && in_window(u, lo, hi)
                        implies u <= cells[b as int].key.1 by {
                        let j = choose|j: int| 0 <= j < cells.len() && #[trigger] cell_key(cells[j]) == (key@, u);
                        assert(cells[j].key.0@ == key@);
                    }
                },
            }
        }
        best
    }

    /// The index of the cell at exactly (`key`, `ts`).
    fn find(&self, key: &Vec<u8>, ts: u64) -> (r: Option<usize>)
        requires
            self.wf(),
        ensures
            r is None <==> !self@.contains_key((key@, ts)),
            r matches Some(i) ==> i < self.cells@.len() && cell_key(self.cells@[i as int]) == (
            key@,
            ts,
            ),
    {
        let mut i: usize = 0;
        while i < self.cells.len()
            invariant
                self.wf(),
                i <= self.cells@.len(),
                forall|j: int| 0 <= j < i ==> cell_key(#[trigger] self.cells@[j]) != (key@, ts),
            decreases self.cells@.len() - i,
        {
            if self.cells[i].key.1 == ts && same_bytes(&self.cells[i].key.0, key) {
                assert(self@.contains_key(cell_key(self.cells@[i as int])));
                return Some(i);
            }
            i = i + 1;
        }
        proof {
            if self@.contains_key((key@, ts)) {
                let j = choose|j: int| 0 <= j < self.cells@.len() && #[trigger] cell_key(self.cells@[j]) == (key@, ts);
            }
        }
        None
    }

    /// Inserts or overwrites the cell at (`key`, `ts`).
    pub fn put(&mut self, key: Vec<u8>, ts: u64, value: Value)
        requires
            old(self).wf(),
        ensures
            final(self).wf(),
            final(self)@ == old(self)@.insert((key@, ts), value@),
    {
        let ghost new_model = self@.insert((key@, ts), value@);
        match self.find(&key, ts) {
            Some(i) => {
                let ghost cells0 = self.cells@;
                self.cells.set(i, Cell { key: (key, ts), value });
                self.model = Ghost(new_model);
                proof {
                    let cells = self.cells@;
                    assert forall|p: (Seq<u8>, u64)| #[trigger] new_model.contains_key(p) implies exists|k: int|
                        0 <= k < cells.len() && #[trigger] cell_key(cells[k]) == p by {
                        if p != cell_key(cells[i as int]) {
                            let k = choose|k: int| 0 <= k < cells0.len() && #[trigger] cell_key(cells0[k]) == p;
                            assert(cell_key(cells[k]) == p);
                        }
                    }
                    assert forall|a: int, b: int| 0 <= a < b < cells.len() implies cell_key(#[trigger] cells[a])
                        != cell_key(#[trigger] cells[b]) by {
                        assert(cell_key(cells0[a]) != cell_key(cells0[b]));
                    }
                }
            },
            None => {
                let ghost cells0 = self.cells@;
                self.cells.push(Cell { key: (key, ts), value });
                self.model = Ghost(new_model);
                proof {
                    let cells = self.cells@;
                    let n = cells0.len() as int;
                    assert(cells[n].key.0@ == key@);
                    assert forall|p: (Seq<u8>, u64)| #[trigger] new_model.contains_key(p) implies exists|k: int|
                        0 <= k < cells.len() && #[trigger] cell_key(cells[k]) == p by {
                        if p != cell_key(cells[n]) {
                            let k = choose|k: int| 0 <= k < cells0.len() && #[trigger] cell_key(cells0[k]) == p;
                            assert(cell_key(cells[k]) == p);
                        }
                    }
                    assert forall|a: int, b: int| 0 <= a < b < cells.len() implies cell_key(#[trigger] cells[a])
                        != cell_key(#[trigger] cells[b]) by {
                        if b == n {
                            assert(cells0[a] == cells[a]);
                            assert(old(self).model@.contains_key(cell_key(cells0[a])));
                        } else {
                            assert(cell_key(cells0[a]) != cell_key(cells0[b]));
                        }
                    }
                }
            },
        }
    }

    /// Removes every version of `key` at or below `upto`.
    pub fn remove_where(&mut self, key: &Vec<u8>, rule: Removal)
        requires
            old(self).wf(),
        ensures
            final(self).wf(),
            final(self)@ == remove_cells(old(self)@, key@, rule),
    {
        let ghost m0 = self@;
        let mut i: usize = 0;
        while i < self.cells.len()
            invariant
                self.wf(),
                i <= self.cells@.len(),
                forall|j: int|
                    0 <= j < i ==> !(#[trigger] self.cells@[j].key.0@ == key@ && removes(
                        rule,
                        self.cells@[j].key.1,
                        self.cells@[j].value@,
                    )),
                forall|p: (Seq<u8>, u64)| #[trigger]
                    self@.contains_key(p) ==> m0.contains_key(p) && self@[p] == m0[p],
                forall|p: (Seq<u8>, u64)|
                    #[trigger] m0.contains_key(p) && !(p.0 == key@ && removes(rule, p.1, m0[p]))
                        ==> self@.contains_key(p),
            decreases self.cells@.len() - i,
        {
            proof {
                assert(self@.contains_key(cell_key(self.cells@[i as int])));
            }
            if removal_applies(rule, self.cells[i].key.1, &self.cells[i].value) && same_bytes(
                &self.cells[i].key.0,
                key,
            ) {
                let ghost cells0 = self.cells@;
                let ghost gone = cell_key(cells0[i as int]);
                let ghost model0 = self@;
                let ghost model1 = model0.remove(gone);
                self.cells.remove(i);
                self.model = Ghost(model1);
                proof {
                    let cells = self.cells@;
                    assert forall|a: int| 0 <= a < cells.len() implies #[trigger] model1.contains_key(
                        cell_key(cells[a])) && model1[cell_key(cells[a])] == cells[a].value@ by {
                        if a < i {
                            assert(cells[a] == cells0[a]);
                            assert(cell_key(cells0[a]) != cell_key(cells0[i as int]));
                        } else {
                            assert(cells[a] == cells0[a + 1]);
                            assert(cell_key(cells0[i as int]) != cell_key(cells0[a + 1]));
                        }
                    }
                    assert forall|p: (Seq<u8>, u64)| #[trigger] model1.contains_key(p) implies exists|k: int|
                        0 <= k < cells.len() && #[trigger] cell_key(cells[k]) == p by {
                        let k = choose|k: int| 0 <= k < cells0.len() && #[trigger] cell_key(cells0[k]) == p;
                        if k < i {
                            assert(cell_key(cells[k]) == p);
                        } else {
                            assert(k != i);
                            assert(cell_key(cells[k - 1]) == p);
                        }
                    }
                    assert forall|a: int, b: int| 0 <= a < b < cells.len() implies cell_key(#[trigger] cells[a])
                        != cell_key(#[trigger] cells[b]) by {
                        let a0 = if a < i { a } else { a + 1 };
                        let b0 = if b < i { b } else { b + 1 };
                        assert(cells[a] == cells0[a0]);
                        assert(cells[b] == cells0[b0]);
                        assert(cell_key(cells0[a0]) != cell_key(cells0[b0]));
                    }
                    assert forall|j: int| 0 <= j < i implies !(#[trigger] cells[j].key.0@ == key@
                        && removes(rule, cells[j].key.1, cells[j].value@)) by {
                        assert(cells[j] == cells0[j]);
                    }
                    assert(cells_match(cells, model1));
                }
            } else {
                i = i + 1;
            }
        }
        proof {
            let cells = self.cells@;
            let target = remove_cells(m0, key@, rule);
            assert forall|p: (Seq<u8>, u64)| #[trigger] self@.contains_key(p) implies !(p.0 == key@
                && removes(rule, p.1, m0[p])) by {
                let k = choose|k: int| 0 <= k < cells.len() && #[trigger] cell_key(cells[k]) == p;
                assert(!(cells[k].key.0@ == key@ && removes(rule, cells[k].key.1, cells[k].value@)));
            }
            assert(self@ =~= target);
        }
    }
}

/// Whether the lock column `m` holds a lock of `key` at `ts` naming `primary`.
pub open spec fn locked_by(m: ColumnView, key: Seq<u8>, ts: u64, primary: Seq<u8>) -> bool {
    m.contains_key((key, ts)) && m[(key, ts)] == ValueView::Vector(primary)
}

/// Whether the write column `m` records that `key`, committed at `commit_ts`,
/// was started at `start_ts`.
pub open spec fn committed_at(m: ColumnView, key: Seq<u8>, commit_ts: u64, start_ts: u64) -> bool {
    m.contains_key((key, commit_ts)) && m[(key, commit_ts)] == ValueView::Timestamp(start_ts)
}

impl VersionedColumn {
    /// The user keys of every cell at `ts` whose value is the bytes `primary`.
    fn keys_at_with(&self, ts: u64, primary: &Vec<u8>) -> (r: Vec<Vec<u8>>)
        requires
            self.wf(),
        ensures
            forall|i: int| 0 <= i < r@.len() ==> locked_by(self@, #[trigger] r@[i]@, ts, primary@),
            forall|k: Seq<u8>| #[trigger] locked_by(self@, k, ts, primary@) ==> exists|i: int|
                0 <= i < r@.len() && #[trigger] r@[i]@ == k,
    {
        let mut r: Vec<Vec<u8>> = Vec::new();
        let mut i: usize = 0;
        while i < self.cells.len()
            invariant
                self.wf(),
                i <= self.cells@.len(),
                forall|a: int| 0 <= a < r@.len() ==> locked_by(self@, #[trigger] r@[a]@, ts, primary@),
                forall|j: int|
                    0 <= j < i && (#[trigger] self.cells@[j]).key.1 == ts && self.cells@[j].value@
                        == ValueView::Vector(primary@) ==> exists|a: int|
                        0 <= a < r@.len() && #[trigger] r@[a]@ == self.cells@[j].key.0@,
            decreases self.cells@.len() - i,
        {
            let c = &self.cells[i];
            let hit = c.key.1 == ts && match &c.value {
                Value::Vector(p) => same_bytes(p, primary),
                Value::Timestamp(_) => false,
            };
            if hit {
                proof {
                    assert(self@.contains_key(cell_key(self.cells@[i as int])));
                }
                let ghost r0 = r@;
                r.push(copy_bytes(&c.key.0));
                proof {
                    assert forall|j: int|
                        0 <= j < i + 1 && (#[trigger] self.cells@[j]).key.1 == ts && self.cells@[j].value@
                            == ValueView::Vector(primary@) implies exists|a: int|
                            0 <= a < r@.len() && #[trigger] r@[a]@ == self.cells@[j].key.0@ by {
                        if j < i {
                            let a = choose|a: int| 0 <= a < r0.len() && #[trigger] r0[a]@ == self.cells@[j].key.0@;
                            assert(r@[a] == r0[a]);
                        } else {
                            assert(r@[r0.len() as int]@ == self.cells@[j].key.0@);
                        }
                    }
                }
            }
            i = i + 1;
        }
        proof {
            assert forall|k: Seq<u8>| #[trigger] locked_by(self@, k, ts, primary@) implies exists|a: int|
                0 <= a < r@.len() && #[trigger] r@[a]@ == k by {
                let j = choose|j: int| 0 <= j < self.cells@.len() && #[trigger] cell_key(self.cells@[j]) == (k, ts);
                assert(self.cells@[j].key.0@ == k);
            }
        }
        r
    }

    /// A timestamp `c` at which the cell (`key`, `c`) holds the timestamp `ts`, if any.
    fn version_holding(&self, key: &Vec<u8>, ts: u64) -> (r: Option<u64>)
        requires
            self.wf(),
        ensures
            r matches Some(c) ==> committed_at(self@, key@, c, ts),
            r is None ==> forall|c: u64| !#[trigger] committed_at(self@, key@, c, ts),
    {
        let mut i: usize = 0;
        while i < self.cells.len()
            invariant
                self.wf(),
                i <= self.cells@.len(),
                forall|j: int|
                    0 <= j < i ==> !((#[trigger] self.cells@[j]).key.0@ == key@ && self.cells@[j].value@
                        == ValueView::Timestamp(ts)),
            decreases self.cells@.len() - i,
        {
            let c = &self.cells[i];
            let hit = match &c.value {
                Value::Timestamp(t) => *t == ts,
                Value::Vector(_) => false,
            } && same_bytes(&c.key.0, key);
            if hit {
                proof {
                    assert(self@.contains_key(cell_key(self.cells@[i as int])));
                }
                return Some(c.key.1);
            }
            i = i + 1;
        }
        proof {
            assert forall|c: u64| !#[trigger] committed_at(self@, key@, c, ts) by {
                if committed_at(self@, key@, c, ts) {
                    let j = choose|j: int| 0 <= j < self.cells@.len() && #[trigger] cell_key(self.cells@[j]) == (key@, c);
                    assert(self.cells@[j].key.0@ == key@);
                }
            }
        }
        None
    }
}

/// The model of the whole table: one map per column.
pub struct TableView {
    pub write: ColumnView,
    pub data: ColumnView,
    pub lock: ColumnView,
}

impl TableView {
    /// The model of one column.
    pub open spec fn column(self, column: Column) -> ColumnView {
        match column {
            Column::Write => self.write,
            Column::Data => self.data,
            Column::Lock => self.lock,
        }
    }

    /// This table with `column` replaced by `m`.
    pub open spec fn with_column(self, column: Column, m: ColumnView) -> TableView {
        match column {
            Column::Write => TableView { write: m, ..self },
            Column::Data => TableView { data: m, ..self },
            Column::Lock => TableView { lock: m, ..self },
        }
    }
}

/// The in-memory versioned table with its Write, Data and Lock columns.
pub struct KvTable {
    write: VersionedColumn,
    data: VersionedColumn,
    lock: VersionedColumn,
}

impl View for KvTable {
    type V = TableView;

    closed spec fn view(&self) -> TableView {
        TableView { write: self.write@, data: self.data@, lock: self.lock@ }
    }
}

impl KvTable {
    pub closed spec fn wf(&self) -> bool {
        self.write.wf() && self.data.wf() && self.lock.wf()
    }

    /// An empty table.
    pub fn new() -> (r: KvTable)
        ensures
            r.wf(),
            r@.write == ColumnView::empty(),
            r@.data == ColumnView::empty(),
            r@.lock == ColumnView::empty(),
    {
        KvTable { write: VersionedColumn::new(), data: VersionedColumn::new(), lock: VersionedColumn::new() }
    }

    fn col(&self, column: Column) -> (r: &VersionedColumn)
        requires
            self.wf(),
        ensures
            r.wf(),
            r@ == self@.column(column),
    {
        match column {
            Column::Write => &self.write,
            Column::Data => &self.data,
            Column::Lock => &self.lock,
        }
    }

    /// The cell of `key` in `column` with the largest timestamp in
    /// `[ts_start_inclusive ?? 0, ts_end_inclusive ?? MAX]`, if any.
    pub fn read(
        &self,
        key: Vec<u8>,
        column: Column,
        ts_start_inclusive: Option<u64>,
        ts_end_inclusive: Option<u64>,
    ) -> (r: Option<(&Key, &Value)>)
        requires
            self.wf(),
        ensures
            r is None <==> !has_version(
                self@.column(column),
                key@,
                ts_start_inclusive,
                ts_end_inclusive,
            ),
            r matches Some((k, v)) ==> k.0@ == key@ && is_latest(
                self@.column(column),
                key@,
                ts_start_inclusive,
                ts_end_inclusive,
                k.1,
            ) && self@.column(column)[(key@, k.1)] == v@,
    {
        let c = self.col(column);
        match c.latest_index(&key, ts_start_inclusive, ts_end_inclusive) {
            None => None,
            Some(i) => {
                let cell = &c.cells[i];
                proof {
                    assert(c@.contains_key(cell_key(c.cells@[i as int])));
                }
                Some((&cell.key, &cell.value))
            },
        }
    }

    /// Inserts or overwrites the cell (`key`, `ts`) of `column`.
    pub fn write(&mut self, key: Vec<u8>, column: Column, ts: u64, value: Value)
        requires
            old(self).wf(),
        ensures
            final(self).wf(),
            final(self)@ == old(self)@.with_column(
                column,
                old(self)@.column(column).insert((key@, ts), value@),
            ),
    {
        match column {
            Column::Write => self.write.put(key, ts, value),
            Column::Data => self.data.put(key, ts, value),
            Column::Lock => self.lock.put(key, ts, value),
        }
    }

    /// Removes every cell of `key` in `column` whose timestamp is at most `commit_ts`.
    pub fn erase(&mut self, key: Vec<u8>, column: Column, commit_ts: u64)
        requires
            old(self).wf(),
        ensures
            final(self).wf(),
            final(self)@ == old(self)@.with_column(
                column,
                erase_upto(old(self)@.column(column), key@, commit_ts),
            ),
    {
        self.remove(key, column, Removal::UpTo(commit_ts));
        assert(remove_cells(old(self)@.column(column), key@, Removal::UpTo(commit_ts)) =~= erase_upto(
            old(self)@.column(column),
            key@,
            commit_ts,
        ));
    }

    /// Removes the cells of `key` in `column` that `rule` takes.
    pub fn remove(&mut self, key: Vec<u8>, column: Column, rule: Removal)
        requires
            old(self).wf(),
        ensures
            final(self).wf(),
            final(self)@ == old(self)@.with_column(
                column,
                remove_cells(old(self)@.column(column), key@, rule),
            ),
    {
        match column {
            Column::Write => self.write.remove_where(&key, rule),
            Column::Data => self.data.remove_where(&key, rule),
            Column::Lock => self.lock.remove_where(&key, rule),
        }
    }

    /// The user keys locked at `ts` by the transaction whose primary is `primary`.
    pub fn uncommitted_keys(&self, ts: u64, primary: &Vec<u8>) -> (r: Vec<Vec<u8>>)
        requires
            self.wf(),
        ensures
            forall|i: int| 0 <= i < r@.len() ==> locked_by(self@.lock, #[trigger] r@[i]@, ts, primary@),
            forall|k: Seq<u8>| #[trigger] locked_by(self@.lock, k, ts, primary@) ==> exists|i: int|
                0 <= i < r@.len() && #[trigger] r@[i]@ == k,
    {
        self.lock.keys_at_with(ts, primary)
    }

    /// The commit timestamp recorded for `primary` by the transaction started at `ts`, if any.
    pub fn commit_ts_of(&self, ts: u64, primary: &Vec<u8>) -> (r: Option<u64>)
        requires
            self.wf(),
        ensures
            r matches Some(c) ==> committed_at(self@.write, primary@, c, ts),
            r is None ==> forall|c: u64| !#[trigger] committed_at(self@.write, primary@, c, ts),
    {
        self.write.version_holding(primary, ts)
    }
}

} // verus!
