//! The in-memory catalog, built from the records of the catalog heap.
use vstd::prelude::*;
use vstd::utf8::{encode_utf8, decode_utf8};
use crate::error::FluxError;
use crate::record::{DbRecord, Record, decoded_record};
use crate::schema::{TableColumn, TableColumnView, TableMeta, TableMetaView, parse_table_column, parse_table_meta};
use crate::types::RecordType;
use crate::chain::{one_more, inserted_at};
use crate::record::typed_record;

verus! {

broadcast use vstd::utf8::group_utf8_lib;

/// The tables and columns of a catalog, as plain values.
pub struct CatalogView {
    pub tables: Seq<TableMetaView>,
    pub columns: Seq<TableColumnView>,
}

/// The catalog after one more heap record: a table or column record is
/// added, a record of another data kind is skipped, and an unknown tag, a
/// malformed payload or a catalog root in the heap is invalid.
pub open spec fn catalog_step(c: CatalogView, rec: Seq<u8>) -> Option<CatalogView> {
    match decoded_record(rec) {
        None => None,
        Some((t, payload)) => match t {
            RecordType::CatalogTable => match parse_table_meta(payload) {
                Some(tm) => Some(CatalogView { tables: c.tables.push(tm), ..c }),
                None => None,
            },
            RecordType::CatalogColumn => match parse_table_column(payload) {
                Some(tc) => Some(CatalogView { columns: c.columns.push(tc), ..c }),
                None => None,
            },
            RecordType::CatalogRoot => None,
            _ => Some(c),
        },
    }
}

/// The catalog that a sequence of heap records describes, in record order.
pub open spec fn catalog_of(recs: Seq<Seq<u8>>) -> Option<CatalogView>
    decreases recs.len(),
{
    if recs.len() == 0 {
        Some(CatalogView { tables: Seq::empty(), columns: Seq::empty() })
    } else {
        match catalog_of(recs.drop_last()) {
            Some(c) => catalog_step(c, recs.last()),
            None => None,
        }
    }
}

/// The last table in `ts` with id `id`.
pub open spec fn table_with_id(ts: Seq<TableMetaView>, id: u32) -> Option<TableMetaView>
    decreases ts.len(),
{
    if ts.len() == 0 {
        None
    } else if ts.last().table_id == id {
        Some(ts.last())
    } else {
        table_with_id(ts.drop_last(), id)
    }
}

/// The id of the last table in `ts` named `name`.
pub open spec fn table_named(ts: Seq<TableMetaView>, name: Seq<char>) -> Option<u32>
    decreases ts.len(),
{
    if ts.len() == 0 {
        None
    } else if ts.last().name == name {
        Some(ts.last().table_id)
    } else {
        table_named(ts.drop_last(), name)
    }
}

/// The columns of table `id`, in order.
pub open spec fn columns_of_table(cs: Seq<TableColumnView>, id: u32) -> Seq<TableColumnView> {
    cs.filter(|c: TableColumnView| c.table_id == id)
}

/// Whether two strings hold the same characters.
pub fn same_text(a: &str, b: &str) -> (r: bool)
    ensures
        r == (a@ == b@),
{
    let x = a.as_bytes();
    let y = b.as_bytes();
    proof {
        assert(decode_utf8(encode_utf8(a@)) == a@);
        assert(decode_utf8(encode_utf8(b@)) == b@);
    }
    if x.len() != y.len() {
        return false;
    }
    let mut i: usize = 0;
    while i < x.len()
        invariant
            x@.len() == y@.len(),
            x@ == encode_utf8(a@),
            y@ == encode_utf8(b@),
            0 <= i <= x@.len(),
            forall|k: int| 0 <= k < i ==> x@[k] == y@[k],
        decreases x@.len() - i,
    {
        if x[i] != y[i] {
            assert(x@[i as int] != y@[i as int]);
            assert(x@ != y@);
            return false;
        }
        i = i + 1;
    }
    assert(x@ =~= y@);
    true
}

impl TableMeta {
    /// A copy of this table entry.
    pub fn copied(&self) -> (r: TableMeta)
        ensures
            r@ == self@,
    {
        TableMeta { table_id: self.table_id, name: self.name.clone() }
    }
}

impl TableColumn {
    /// A copy of this column entry.
    pub fn copied(&self) -> (r: TableColumn)
        ensures
            r@ == self@,
    {
        TableColumn {
            table_id: self.table_id,
            column_id: self.column_id,
            column_type: self.column_type,
            name: self.name.clone(),
        }
    }
}

/// The catalog: every table and every column, in heap order, with lookups
/// by table id, by table name and by owning table.
pub struct Catalog {
    pub tables: Vec<TableMeta>,
    pub columns: Vec<TableColumn>,
}

impl View for Catalog {
    type V = CatalogView;

    open spec fn view(&self) -> CatalogView {
        CatalogView {
            tables: self.tables@.map_values(|t: TableMeta| t@),
            columns: self.columns@.map_values(|c: TableColumn| c@),
        }
    }
}

impl Catalog {
    /// An empty catalog.
    pub fn new() -> (r: Catalog)
        ensures
            r@.tables.len() == 0,
            r@.columns.len() == 0,
    {
        let r = Catalog { tables: Vec::new(), columns: Vec::new() };
        assert(r@.tables =~= Seq::<TableMetaView>::empty());
        r
    }

    /// Builds the catalog from heap records, in order; fails with
    /// `InvalidData` on a record that `catalog_step` rejects.
    pub fn from_records(recs: &Vec<Vec<u8>>) -> (r: Result<Catalog, FluxError>)
        ensures
            match r {
                Ok(c) => catalog_of(recs@.map_values(|v: Vec<u8>| v@)) == Some(c@),
                Err(e) => catalog_of(recs@.map_values(|v: Vec<u8>| v@)) is None && e
                    == FluxError::InvalidData,
            },
    {
        let ghost all = recs@.map_values(|v: Vec<u8>| v@);
        let mut cat = Catalog::new();
        let mut i: usize = 0;
        assert(all.subrange(0, 0) =~= Seq::<Seq<u8>>::empty());
        assert(cat@.tables =~= Seq::<TableMetaView>::empty());
        assert(cat@.columns =~= Seq::<TableColumnView>::empty());
        while i < recs.len()
            invariant
                0 <= i <= recs@.len(),
                all == recs@.map_values(|v: Vec<u8>| v@),
                catalog_of(all.subrange(0, i as int)) == Some(cat@),
            decreases recs@.len() - i,
        {
            let rec = recs[i].as_slice();
            let ghost prefix = all.subrange(0, i + 1);
            assert(prefix.drop_last() =~= all.subrange(0, i as int));
            assert(prefix.last() == rec@);
            match Record::decode(rec) {
                None => {
                    proof { lemma_catalog_of_prefix_none(all, i + 1); }
                    return Err(FluxError::InvalidData);
                },
                Some(r) => {
                    match r.record_type {
                        RecordType::CatalogTable => {
                            match TableMeta::deserialize(r.payload) {
                                Ok(t) => {
                                    let ghost before = cat@;
                                    cat.tables.push(t);
                                    assert(cat@.tables =~= before.tables.push(t@));
                                    assert(cat@.columns =~= before.columns);
                                },
                                Err(_) => {
                                    proof { lemma_catalog_of_prefix_none(all, i + 1); }
                                    return Err(FluxError::InvalidData);
                                },
                            }
                        },
                        RecordType::CatalogColumn => {
                            match TableColumn::deserialize(r.payload) {
                                Ok(c) => {
                                    let ghost before = cat@;
                                    cat.columns.push(c);
                                    assert(cat@.columns =~= before.columns.push(c@));
                                    assert(cat@.tables =~= before.tables);
                                },
                                Err(_) => {
                                    proof { lemma_catalog_of_prefix_none(all, i + 1); }
                                    return Err(FluxError::InvalidData);
                                },
                            }
                        },
                        RecordType::CatalogRoot => {
                            proof { lemma_catalog_of_prefix_none(all, i + 1); }
                            return Err(FluxError::InvalidData);
                        },
                        _ => {},
                    }
                },
            }
            i = i + 1;
        }
        assert(all.subrange(0, recs@.len() as int) =~= all);
        Ok(cat)
    }

    /// The last table with id `table_id`.
    pub fn table_by_id(&self, table_id: u32) -> (r: Option<&TableMeta>)
        ensures
            match r {
                Some(t) => table_with_id(self@.tables, table_id) == Some(t@),
                None => table_with_id(self@.tables, table_id) is None,
            },
    {
        let mut i: usize = self.tables.len();
        assert(self@.tables.subrange(0, i as int) =~= self@.tables);
        while i > 0
            invariant
                0 <= i <= self.tables@.len(),
                table_with_id(self@.tables, table_id) == table_with_id(
                    self@.tables.subrange(0, i as int),
                    table_id,
                ),
            decreases i,
        {
            let ghost s = self@.tables.subrange(0, i as int);
            assert(s.drop_last() =~= self@.tables.subrange(0, i - 1));
            if self.tables[i - 1].table_id == table_id {
                return Some(&self.tables[i - 1]);
            }
            i = i - 1;
        }
        None
    }

    /// The id of the last table named `name`.
    pub fn table_id_by_name(&self, name: &str) -> (r: Option<u32>)
        ensures
            r == table_named(self@.tables, name@),
    {
        let mut i: usize = self.tables.len();
        assert(self@.tables.subrange(0, i as int) =~= self@.tables);
        while i > 0
            invariant
                0 <= i <= self.tables@.len(),
                table_named(self@.tables, name@) == table_named(
                    self@.tables.subrange(0, i as int),
                    name@,
                ),
            decreases i,
        {
            let ghost s = self@.tables.subrange(0, i as int);
            assert(s.drop_last() =~= self@.tables.subrange(0, i - 1));
            if same_text(self.tables[i - 1].name.as_str(), name) {
                return Some(self.tables[i - 1].table_id);
            }
            i = i - 1;
        }
        None
    }

    /// Copies of the columns of table `table_id`, in order.
    pub fn columns_of(&self, table_id: u32) -> (r: Vec<TableColumn>)
        ensures
            r@.map_values(|c: TableColumn| c@) == columns_of_table(self@.columns, table_id),
    {
        let mut out: Vec<TableColumn> = Vec::new();
        let mut i: usize = 0;
        while i < self.columns.len()
            invariant
                0 <= i <= self.columns@.len(),
                out@.map_values(|c: TableColumn| c@) == columns_of_table(
                    self@.columns.subrange(0, i as int),
                    table_id,
                ),
            decreases self.columns@.len() - i,
        {
            let ghost s = self@.columns.subrange(0, i + 1);
            assert(s.drop_last() =~= self@.columns.subrange(0, i as int));
            reveal(Seq::filter);
            if self.columns[i].table_id == table_id {
                out.push(self.columns[i].copied());
            }
            assert(out@.map_values(|c: TableColumn| c@) =~= columns_of_table(s, table_id));
            i = i + 1;
        }
        assert(self@.columns.subrange(0, self@.columns.len() as int) =~= self@.columns);
        out
    }

    /// Whether table `table_id` has a column named `name`.
    pub fn has_column(&self, table_id: u32, name: &str) -> (r: bool)
        ensures
            r == exists|k: int|
                0 <= k < self@.columns.len() && (#[trigger] self@.columns[k]).table_id == table_id
                    && self@.columns[k].name == name@,
    {
        let mut i: usize = 0;
        while i < self.columns.len()
            invariant
                0 <= i <= self.columns@.len(),
                forall|k: int|
                    0 <= k < i ==> !((#[trigger] self@.columns[k]).table_id == table_id
                        && self@.columns[k].name == name@),
            decreases self.columns@.len() - i,
        {
            if self.columns[i].table_id == table_id && same_text(self.columns[i].name.as_str(), name) {
                assert(self@.columns[i as int].name == name@);
                return true;
            }
            i = i + 1;
        }
        false
    }

    /// How many columns table `table_id` has.
    pub fn column_count(&self, table_id: u32) -> (r: usize)
        ensures
            r == columns_of_table(self@.columns, table_id).len(),
    {
        let mut n: usize = 0;
        let mut i: usize = 0;
        while i < self.columns.len()
            invariant
                0 <= i <= self.columns@.len(),
                n == columns_of_table(self@.columns.subrange(0, i as int), table_id).len(),
                n <= i,
            decreases self.columns@.len() - i,
        {
            let ghost s = self@.columns.subrange(0, i + 1);
            assert(s.drop_last() =~= self@.columns.subrange(0, i as int));
            reveal(Seq::filter);
            if self.columns[i].table_id == table_id {
                n = n + 1;
            }
            i = i + 1;
        }
        assert(self@.columns.subrange(0, self@.columns.len() as int) =~= self@.columns);
        n
    }
}

/// Every column belongs to a table of the catalog.
pub open spec fn columns_owned(c: CatalogView) -> bool {
    forall|k: int|
        0 <= k < c.columns.len() ==> exists|m: int|
            0 <= m < c.tables.len() && c.tables[m].table_id == (#[trigger] c.columns[k]).table_id
}

/// The id that a name lookup finds belongs to a table of the sequence.
pub proof fn lemma_table_named_exists(ts: Seq<TableMetaView>, n: Seq<char>)
    requires
        table_named(ts, n) is Some,
    ensures
        exists|m: int| 0 <= m < ts.len() && ts[m].table_id == table_named(ts, n)->Some_0,
    decreases ts.len(),
{
    if ts.last().name == n {
        assert(ts[ts.len() - 1].table_id == table_named(ts, n)->Some_0);
    } else {
        let d = ts.drop_last();
        lemma_table_named_exists(d, n);
        let m = choose|m: int| 0 <= m < d.len() && d[m].table_id == table_named(d, n)->Some_0;
        assert(ts[m] == d[m]);
    }
}

/// Once a prefix of the records is invalid, so is every longer sequence.
pub proof fn lemma_catalog_of_prefix_none(all: Seq<Seq<u8>>, n: int)
    requires
        0 <= n <= all.len(),
        catalog_of(all.subrange(0, n)) is None,
    ensures
        catalog_of(all) is None,
    decreases all.len() - n,
{
    if n == all.len() {
        assert(all.subrange(0, n) =~= all);
    } else {
        let s = all.subrange(0, n + 1);
        assert(s.drop_last() =~= all.subrange(0, n));
        lemma_catalog_of_prefix_none(all, n + 1);
    }
}

/// A heap record that the catalog accepts.
pub open spec fn record_ok(r: Seq<u8>) -> bool {
    match decoded_record(r) {
        None => false,
        Some((t, p)) => match t {
            RecordType::CatalogTable => parse_table_meta(p) is Some,
            RecordType::CatalogColumn => parse_table_column(p) is Some,
            RecordType::CatalogRoot => false,
            _ => true,
        },
    }
}

/// The table a heap record adds, if it adds one.
pub open spec fn record_tables(r: Seq<u8>) -> Seq<TableMetaView> {
    match decoded_record(r) {
        Some((t, p)) => if t == RecordType::CatalogTable && parse_table_meta(p) is Some {
            seq![parse_table_meta(p)->Some_0]
        } else {
            Seq::empty()
        },
        None => Seq::empty(),
    }
}

/// The column a heap record adds, if it adds one.
pub open spec fn record_columns(r: Seq<u8>) -> Seq<TableColumnView> {
    match decoded_record(r) {
        Some((t, p)) => if t == RecordType::CatalogColumn && parse_table_column(p) is Some {
            seq![parse_table_column(p)->Some_0]
        } else {
            Seq::empty()
        },
        None => Seq::empty(),
    }
}

pub open spec fn all_ok(recs: Seq<Seq<u8>>) -> bool {
    forall|i: int| 0 <= i < recs.len() ==> record_ok(#[trigger] recs[i])
}

pub open spec fn tables_in(recs: Seq<Seq<u8>>) -> Seq<TableMetaView>
    decreases recs.len(),
{
    if recs.len() == 0 {
        Seq::empty()
    } else {
        tables_in(recs.drop_last()) + record_tables(recs.last())
    }
}

pub open spec fn columns_in(recs: Seq<Seq<u8>>) -> Seq<TableColumnView>
    decreases recs.len(),
{
    if recs.len() == 0 {
        Seq::empty()
    } else {
        columns_in(recs.drop_last()) + record_columns(recs.last())
    }
}

/// The catalog of a sequence of records: every record is accepted, and the
/// tables and columns are those the records add, in order.
pub proof fn lemma_catalog_of_shape(recs: Seq<Seq<u8>>)
    ensures
        catalog_of(recs) == if all_ok(recs) {
            Some(CatalogView { tables: tables_in(recs), columns: columns_in(recs) })
        } else {
            None::<CatalogView>
        },
    decreases recs.len(),
{
    if recs.len() == 0 {
    } else {
        let d = recs.drop_last();
        lemma_catalog_of_shape(d);
        assert(all_ok(recs) == (all_ok(d) && record_ok(recs.last()))) by {
            if all_ok(d) && record_ok(recs.last()) {
                assert forall|i: int| 0 <= i < recs.len() implies record_ok(#[trigger] recs[i]) by {
                    if i < d.len() {
                        assert(recs[i] == d[i]);
                    }
                }
            }
            if all_ok(recs) {
                assert forall|i: int| 0 <= i < d.len() implies record_ok(#[trigger] d[i]) by {
                    assert(recs[i] == d[i]);
                }
                assert(record_ok(recs[recs.len() - 1]));
            }
        }
        if all_ok(d) {
            let c = CatalogView { tables: tables_in(d), columns: columns_in(d) };
            let r = recs.last();
            match decoded_record(r) {
                Some((t, p)) => {
                    if t == RecordType::CatalogTable && parse_table_meta(p) is Some {
                        assert(c.tables.push(parse_table_meta(p)->Some_0) =~= tables_in(recs));
                        assert(c.columns =~= columns_in(recs));
                    } else if t == RecordType::CatalogColumn && parse_table_column(p) is Some {
                        assert(c.columns.push(parse_table_column(p)->Some_0) =~= columns_in(recs));
                        assert(c.tables =~= tables_in(recs));
                    } else {
                        assert(c.tables =~= tables_in(recs));
                        assert(c.columns =~= columns_in(recs));
                    }
                },
                None => {},
            }
        }
    }
}

pub proof fn lemma_in_concat(a: Seq<Seq<u8>>, b: Seq<Seq<u8>>)
    ensures
        tables_in(a + b) == tables_in(a) + tables_in(b),
        columns_in(a + b) == columns_in(a) + columns_in(b),
    decreases b.len(),
{
    if b.len() == 0 {
        assert(a + b =~= a);
        assert(tables_in(a) + tables_in(b) =~= tables_in(a));
        assert(columns_in(a) + columns_in(b) =~= columns_in(a));
    } else {
        assert((a + b).drop_last() =~= a + b.drop_last());
        assert((a + b).last() == b.last());
        lemma_in_concat(a, b.drop_last());
        assert(tables_in(a + b) =~= tables_in(a) + tables_in(b));
        assert(columns_in(a + b) =~= columns_in(a) + columns_in(b));
    }
}

/// A valid table or column record inserted anywhere in the heap adds its
/// table or column to the catalog and changes nothing else, up to order.
pub proof fn lemma_catalog_one_more(old: Seq<Seq<u8>>, new: Seq<Seq<u8>>, rec: Seq<u8>)
    requires
        one_more(old, new, rec),
        record_ok(rec),
        catalog_of(old) is Some,
    ensures
        catalog_of(new) is Some,
        catalog_of(new)->Some_0.tables.to_multiset() == catalog_of(old)->Some_0.tables.to_multiset().add(
            record_tables(rec).to_multiset(),
        ),
        catalog_of(new)->Some_0.columns.to_multiset() == catalog_of(old)->Some_0.columns.to_multiset().add(
            record_columns(rec).to_multiset(),
        ),
{
    let k = choose|k: int| 0 <= k <= old.len() && new == inserted_at(old, rec, k);
    let a = old.subrange(0, k);
    let b = old.subrange(k, old.len() as int);
    let one = seq![rec];
    assert(old =~= a + b);
    assert(new =~= a + one + b);
    lemma_catalog_of_shape(old);
    lemma_catalog_of_shape(new);
    assert(all_ok(new)) by {
        assert forall|i: int| 0 <= i < new.len() implies record_ok(#[trigger] new[i]) by {
            if i < k {
                assert(new[i] == old[i]);
            } else if i > k {
                assert(new[i] == old[i - 1]);
            }
        }
    }
    lemma_in_concat(a, b);
    lemma_in_concat(a + one, b);
    lemma_in_concat(a, one);
    assert(one.drop_last() =~= Seq::<Seq<u8>>::empty());
    assert(one.last() == rec);
    assert(tables_in(Seq::<Seq<u8>>::empty()) == Seq::<TableMetaView>::empty());
    assert(columns_in(Seq::<Seq<u8>>::empty()) == Seq::<TableColumnView>::empty());
    assert(tables_in(one) == tables_in(one.drop_last()) + record_tables(one.last()));
    assert(columns_in(one) == columns_in(one.drop_last()) + record_columns(one.last()));
    assert(tables_in(one) =~= record_tables(rec));
    assert(columns_in(one) =~= record_columns(rec));
    vstd::seq_lib::lemma_multiset_commutative(tables_in(a), tables_in(b));
    vstd::seq_lib::lemma_multiset_commutative(tables_in(a) + record_tables(rec), tables_in(b));
    vstd::seq_lib::lemma_multiset_commutative(tables_in(a), record_tables(rec));
    vstd::seq_lib::lemma_multiset_commutative(columns_in(a), columns_in(b));
    vstd::seq_lib::lemma_multiset_commutative(columns_in(a) + record_columns(rec), columns_in(b));
    vstd::seq_lib::lemma_multiset_commutative(columns_in(a), record_columns(rec));
    assert(catalog_of(new)->Some_0.tables.to_multiset() =~= catalog_of(old)->Some_0.tables.to_multiset().add(
        record_tables(rec).to_multiset(),
    ));
    assert(catalog_of(new)->Some_0.columns.to_multiset() =~= catalog_of(old)->Some_0.columns.to_multiset().add(
        record_columns(rec).to_multiset(),
    ));
}

/// The stored record of a table adds exactly that table.
pub proof fn lemma_table_record(t: TableMetaView)
    ensures
        record_ok(typed_record::<TableMeta>(t)),
        record_tables(typed_record::<TableMeta>(t)) == seq![t],
        record_columns(typed_record::<TableMeta>(t)) == Seq::<TableColumnView>::empty(),
{
    crate::record::lemma_record_round_trip(RecordType::CatalogTable, crate::schema::table_meta_bytes(t));
    crate::schema::lemma_table_meta_round_trip(t);
}

/// The stored record of a column adds exactly that column.
pub proof fn lemma_column_record(c: TableColumnView)
    ensures
        record_ok(typed_record::<TableColumn>(c)),
        record_columns(typed_record::<TableColumn>(c)) == seq![c],
        record_tables(typed_record::<TableColumn>(c)) == Seq::<TableMetaView>::empty(),
{
    crate::record::lemma_record_round_trip(RecordType::CatalogColumn, crate::schema::table_column_bytes(c));
    crate::schema::lemma_table_column_round_trip(c);
}

} // verus!
