//! The built-in schema that a new database is seeded with, and the proof
//! that seeding is idempotent.
use vstd::prelude::*;
use crate::catalog::{CatalogView, columns_owned, table_named};
use crate::database::Database;
use crate::pager::MAX_PAGE_COUNT;
use crate::record::typed_record;
use crate::schema::{TableColumn, TableMeta};
use crate::error::FluxError;
use crate::schema::{TableColumnView, TableMetaView};
use crate::types::ColumnType;
use vstd::utf8::{encode_utf8, is_ascii_chars};

verus! {

broadcast use vstd::utf8::group_utf8_lib;

/// The seed schema: each table's name with the names and types of its
/// columns.
pub open spec fn seed_plan() -> Seq<(Seq<char>, Seq<(Seq<char>, ColumnType)>)> {
    seq![
            ("users"@, seq![
                ("id"@, ColumnType::Integer64),
                ("first_name"@, ColumnType::Utf8),
                ("last_name"@, ColumnType::Utf8),
                ("email"@, ColumnType::Utf8),
                ("password_hash"@, ColumnType::Utf8),
                ("dob"@, ColumnType::Timestamp),
                ("is_active"@, ColumnType::Boolean),
                ("created_at"@, ColumnType::Timestamp),
                ("updated_at"@, ColumnType::Timestamp),
                ("deleted_at"@, ColumnType::Timestamp),
            ]),
            ("orders"@, seq![
                ("id"@, ColumnType::Integer64),
                ("user_id"@, ColumnType::Integer64),
                ("status"@, ColumnType::Utf8),
                ("subtotal"@, ColumnType::Float64),
                ("tax"@, ColumnType::Float64),
                ("total"@, ColumnType::Float64),
                ("currency"@, ColumnType::Utf8),
                ("created_at"@, ColumnType::Timestamp),
                ("updated_at"@, ColumnType::Timestamp),
                ("deleted_at"@, ColumnType::Timestamp),
            ]),
            ("products"@, seq![
                ("id"@, ColumnType::Integer64),
                ("sku"@, ColumnType::Utf8),
                ("name"@, ColumnType::Utf8),
                ("description"@, ColumnType::Utf8),
                ("price"@, ColumnType::Float64),
                ("stock"@, ColumnType::Integer32),
                ("category_id"@, ColumnType::Integer64),
                ("is_active"@, ColumnType::Boolean),
                ("created_at"@, ColumnType::Timestamp),
                ("updated_at"@, ColumnType::Timestamp),
            ]),
            ("categories"@, seq![
                ("id"@, ColumnType::Integer64),
                ("name"@, ColumnType::Utf8),
                ("slug"@, ColumnType::Utf8),
                ("parent_id"@, ColumnType::Integer64),
                ("sort_order"@, ColumnType::Integer32),
                ("is_active"@, ColumnType::Boolean),
                ("created_at"@, ColumnType::Timestamp),
                ("updated_at"@, ColumnType::Timestamp),
                ("deleted_at"@, ColumnType::Timestamp),
                ("metadata"@, ColumnType::Utf8),
            ]),
            ("payments"@, seq![
                ("id"@, ColumnType::Integer64),
                ("order_id"@, ColumnType::Integer64),
                ("provider"@, ColumnType::Utf8),
                ("provider_ref"@, ColumnType::Utf8),
                ("amount"@, ColumnType::Float64),
                ("currency"@, ColumnType::Utf8),
                ("status"@, ColumnType::Utf8),
                ("paid_at"@, ColumnType::Timestamp),
                ("created_at"@, ColumnType::Timestamp),
                ("updated_at"@, ColumnType::Timestamp),
            ]),
            ("addresses"@, seq![
                ("id"@, ColumnType::Integer64),
                ("user_id"@, ColumnType::Integer64),
                ("line1"@, ColumnType::Utf8),
                ("line2"@, ColumnType::Utf8),
                ("city"@, ColumnType::Utf8),
                ("country"@, ColumnType::Utf8),
                ("postal_code"@, ColumnType::Utf8),
                ("is_default"@, ColumnType::Boolean),
                ("created_at"@, ColumnType::Timestamp),
                ("updated_at"@, ColumnType::Timestamp),
            ]),
            ("sessions"@, seq![
                ("id"@, ColumnType::Integer64),
                ("user_id"@, ColumnType::Integer64),
                ("token"@, ColumnType::Utf8),
                ("ip_address"@, ColumnType::Utf8),
                ("user_agent"@, ColumnType::Utf8),
                ("expires_at"@, ColumnType::Timestamp),
                ("revoked_at"@, ColumnType::Timestamp),
                ("created_at"@, ColumnType::Timestamp),
                ("updated_at"@, ColumnType::Timestamp),
                ("last_seen_at"@, ColumnType::Timestamp),
            ]),
            ("roles"@, seq![
                ("id"@, ColumnType::Integer64),
                ("name"@, ColumnType::Utf8),
                ("description"@, ColumnType::Utf8),
                ("is_system"@, ColumnType::Boolean),
                ("created_at"@, ColumnType::Timestamp),
                ("updated_at"@, ColumnType::Timestamp),
                ("deleted_at"@, ColumnType::Timestamp),
                ("permissions"@, ColumnType::Utf8),
                ("priority"@, ColumnType::Integer32),
                ("metadata"@, ColumnType::Utf8),
            ]),
            ("user_roles"@, seq![
                ("id"@, ColumnType::Integer64),
                ("user_id"@, ColumnType::Integer64),
                ("role_id"@, ColumnType::Integer64),
                ("assigned_by"@, ColumnType::Integer64),
                ("assigned_at"@, ColumnType::Timestamp),
                ("expires_at"@, ColumnType::Timestamp),
                ("is_active"@, ColumnType::Boolean),
                ("created_at"@, ColumnType::Timestamp),
                ("updated_at"@, ColumnType::Timestamp),
                ("deleted_at"@, ColumnType::Timestamp),
            ]),
            ("audit_logs"@, seq![
                ("id"@, ColumnType::Integer64),
                ("actor_id"@, ColumnType::Integer64),
                ("action"@, ColumnType::Utf8),
                ("entity"@, ColumnType::Utf8),
                ("entity_id"@, ColumnType::Integer64),
                ("payload"@, ColumnType::Utf8),
                ("ip_address"@, ColumnType::Utf8),
                ("created_at"@, ColumnType::Timestamp),
                ("request_id"@, ColumnType::Integer64),
                ("severity"@, ColumnType::Integer32),
            ]),
        ]
}

/// Column names and types as plain values.
pub open spec fn cols_view(cols: Seq<(&str, ColumnType)>) -> Seq<(Seq<char>, ColumnType)> {
    cols.map_values(|p: (&str, ColumnType)| (p.0@, p.1))
}

/// A seed plan as plain values.
pub open spec fn plan_view(plan: Seq<(&str, Vec<(&str, ColumnType)>)>) -> Seq<
    (Seq<char>, Seq<(Seq<char>, ColumnType)>),
> {
    plan.map_values(|e: (&str, Vec<(&str, ColumnType)>)| (e.0@, cols_view(e.1@)))
}

/// Table `tid` has a column named `name`.
pub open spec fn has_col(c: CatalogView, tid: u32, name: Seq<char>) -> bool {
    exists|k: int|
        0 <= k < c.columns.len() && (#[trigger] c.columns[k]).table_id == tid && c.columns[k].name
            == name
}

/// A table named `name` exists and has a column of each name in `cols`.
pub open spec fn table_seeded(c: CatalogView, name: Seq<char>, cols: Seq<(Seq<char>, ColumnType)>) -> bool {
    &&& table_named(c.tables, name) is Some
    &&& forall|i: int|
        0 <= i < cols.len() ==> has_col(c, table_named(c.tables, name)->Some_0, #[trigger] cols[i].0)
}

/// Every table of the seed schema is in place with all its columns.
pub open spec fn seeded(c: CatalogView) -> bool {
    forall|i: int|
        0 <= i < seed_plan().len() ==> table_seeded(c, #[trigger] seed_plan()[i].0, seed_plan()[i].1)
}

/// Every table that was in place with its columns still is.
pub open spec fn keeps_seeded(a: CatalogView, b: CatalogView) -> bool {
    forall|n: Seq<char>, cs: Seq<(Seq<char>, ColumnType)>|
        #[trigger] table_seeded(a, n, cs) ==> table_seeded(b, n, cs)
}

/// Room for `tables` more table ids, `columns` more column ids and that many
/// more pages, in pages of at least 64 bytes.
pub open spec fn room_for(d: Database, tables: int, columns: int) -> bool {
    &&& d.root().next_table_id + tables < u32::MAX
    &&& d.root().next_column_id + columns < u32::MAX
    &&& d.pager.page_count() + tables + columns < MAX_PAGE_COUNT
    &&& d.pager.page_size() >= 64
}

/// Going from `before` to `after` took at most `tables` table ids,
/// `columns` column ids and `tables + columns` new pages.
pub open spec fn used_at_most(before: Database, after: Database, tables: int, columns: int) -> bool {
    &&& after.pager.page_size() == before.pager.page_size()
    &&& before.pager.page_count() <= after.pager.page_count() <= before.pager.page_count() + tables
        + columns
    &&& before.root().next_table_id <= after.root().next_table_id <= before.root().next_table_id
        + tables
    &&& before.root().next_column_id <= after.root().next_column_id
        <= before.root().next_column_id + columns
}

/// What a run of the seed routine did: whatever happened, tables in place
/// stay in place; on success the whole schema is in place; and on a
/// database where it already was, the run succeeds and changes nothing.
pub open spec fn seed_effect(before: Database, after: Database, ok: bool) -> bool {
    &&& keeps_seeded(before.catalog@, after.catalog@)
    &&& columns_owned(before.catalog@) ==> columns_owned(after.catalog@)
    &&& ok ==> seeded(after.catalog@)
    &&& seeded(before.catalog@) ==> ok && after.catalog@ == before.catalog@ && after.pager.bytes()
        == before.pager.bytes()
}

/// Adding a table under a new name keeps every seeded table seeded.
pub proof fn lemma_keeps_new_table(c: CatalogView, t: TableMetaView)
    requires
        table_named(c.tables, t.name) is None,
    ensures
        keeps_seeded(c, CatalogView { tables: c.tables.push(t), ..c }),
{
    let c2 = CatalogView { tables: c.tables.push(t), ..c };
    assert(c2.tables.drop_last() =~= c.tables);
    assert forall|n: Seq<char>, cs: Seq<(Seq<char>, ColumnType)>| #[trigger] table_seeded(c, n, cs)
        implies table_seeded(c2, n, cs) by {
        assert(table_named(c2.tables, n) == table_named(c.tables, n));
    }
}

/// Adding a column keeps every seeded table seeded.
pub proof fn lemma_keeps_new_column(c: CatalogView, col: TableColumnView)
    ensures
        keeps_seeded(c, CatalogView { columns: c.columns.push(col), ..c }),
{
    let c2 = CatalogView { columns: c.columns.push(col), ..c };
    assert forall|n: Seq<char>, cs: Seq<(Seq<char>, ColumnType)>| #[trigger] table_seeded(c, n, cs)
        implies table_seeded(c2, n, cs) by {
        let tid = table_named(c.tables, n)->Some_0;
        assert forall|i: int| 0 <= i < cs.len() implies has_col(c2, tid, #[trigger] cs[i].0) by {
            assert(has_col(c, tid, cs[i].0));
            let k = choose|k: int|
                0 <= k < c.columns.len() && (#[trigger] c.columns[k]).table_id == tid
                    && c.columns[k].name == cs[i].0;
            assert(c2.columns[k] == c.columns[k]);
        }
    }
}

/// Keeping tables seeded is transitive.
pub proof fn lemma_keeps_trans(a: CatalogView, b: CatalogView, c: CatalogView)
    requires
        keeps_seeded(a, b),
        keeps_seeded(b, c),
    ensures
        keeps_seeded(a, c),
{
    assert forall|n: Seq<char>, cs: Seq<(Seq<char>, ColumnType)>| #[trigger] table_seeded(a, n, cs)
        implies table_seeded(c, n, cs) by {
        assert(table_seeded(b, n, cs));
    }
}

/// Running the seed routine on a database it has already seeded succeeds
/// and changes neither the file nor the catalog: seeding twice adds no
/// table and no column twice.
pub proof fn lemma_seed_twice(d0: Database, d1: Database, d2: Database, ok2: bool)
    requires
        seed_effect(d0, d1, true),
        seed_effect(d1, d2, ok2),
    ensures
        ok2,
        d2.catalog@ == d1.catalog@,
        d2.pager.bytes() == d1.pager.bytes(),
{
}

/// A name whose UTF-8 encoding takes at most 16 bytes.
pub open spec fn name_fits(n: Seq<char>) -> bool {
    encode_utf8(n).len() <= 16
}

/// A table of a seed plan with ten columns, every name of it short.
pub open spec fn plan_entry_fits(e: (Seq<char>, Seq<(Seq<char>, ColumnType)>)) -> bool {
    &&& name_fits(e.0)
    &&& e.1.len() == 10
    &&& forall|j: int| 0 <= j < e.1.len() ==> name_fits(#[trigger] e.1[j].0)
}

proof fn lemma_plan_entry_0()
    ensures
        plan_entry_fits(seed_plan()[0]),
{
    reveal_strlit("users");
    assert(is_ascii_chars("users"@));
    assert(name_fits("users"@));
    reveal_strlit("id");
    assert(is_ascii_chars("id"@));
    assert(name_fits("id"@));
    reveal_strlit("first_name");
    assert(is_ascii_chars("first_name"@));
    assert(name_fits("first_name"@));
    reveal_strlit("last_name");
    assert(is_ascii_chars("last_name"@));
    assert(name_fits("last_name"@));
    reveal_strlit("email");
    assert(is_ascii_chars("email"@));
    assert(name_fits("email"@));
    reveal_strlit("password_hash");
    assert(is_ascii_chars("password_hash"@));
    assert(name_fits("password_hash"@));
    reveal_strlit("dob");
    assert(is_ascii_chars("dob"@));
    assert(name_fits("dob"@));
    reveal_strlit("is_active");
    assert(is_ascii_chars("is_active"@));
    assert(name_fits("is_active"@));
    reveal_strlit("created_at");
    assert(is_ascii_chars("created_at"@));
    assert(name_fits("created_at"@));
    reveal_strlit("updated_at");
    assert(is_ascii_chars("updated_at"@));
    assert(name_fits("updated_at"@));
    reveal_strlit("deleted_at");
    assert(is_ascii_chars("deleted_at"@));
    assert(name_fits("deleted_at"@));
    assert(seed_plan()[0].0 == "users"@);
    assert forall|j: int| 0 <= j < seed_plan()[0].1.len() implies name_fits(
        #[trigger] seed_plan()[0].1[j].0,
    ) by {
        if j == 0 {
            assert(seed_plan()[0].1[0].0 == "id"@);
        } else if j == 1 {
            assert(seed_plan()[0].1[1].0 == "first_name"@);
        } else if j == 2 {
            assert(seed_plan()[0].1[2].0 == "last_name"@);
        } else if j == 3 {
            assert(seed_plan()[0].1[3].0 == "email"@);
        } else if j == 4 {
            assert(seed_plan()[0].1[4].0 == "password_hash"@);
        } else if j == 5 {
            assert(seed_plan()[0].1[5].0 == "dob"@);
        } else if j == 6 {
            assert(seed_plan()[0].1[6].0 == "is_active"@);
        } else if j == 7 {
            assert(seed_plan()[0].1[7].0 == "created_at"@);
        } else if j == 8 {
            assert(seed_plan()[0].1[8].0 == "updated_at"@);
        } else if j == 9 {
            assert(seed_plan()[0].1[9].0 == "deleted_at"@);
        }
    }
}

proof fn lemma_plan_entry_1()
    ensures
        plan_entry_fits(seed_plan()[1]),
{
    reveal_strlit("orders");
    assert(is_ascii_chars("orders"@));
    assert(name_fits("orders"@));
    reveal_strlit("id");
    assert(is_ascii_chars("id"@));
    assert(name_fits("id"@));
    reveal_strlit("user_id");
    assert(is_ascii_chars("user_id"@));
    assert(name_fits("user_id"@));
    reveal_strlit("status");
    assert(is_ascii_chars("status"@));
    assert(name_fits("status"@));
    reveal_strlit("subtotal");
    assert(is_ascii_chars("subtotal"@));
    assert(name_fits("subtotal"@));
    reveal_strlit("tax");
    assert(is_ascii_chars("tax"@));
    assert(name_fits("tax"@));
    reveal_strlit("total");
    assert(is_ascii_chars("total"@));
    assert(name_fits("total"@));
    reveal_strlit("currency");
    assert(is_ascii_chars("currency"@));
    assert(name_fits("currency"@));
    reveal_strlit("created_at");
    assert(is_ascii_chars("created_at"@));
    assert(name_fits("created_at"@));
    reveal_strlit("updated_at");
    assert(is_ascii_chars("updated_at"@));
    assert(name_fits("updated_at"@));
    reveal_strlit("deleted_at");
    assert(is_ascii_chars("deleted_at"@));
    assert(name_fits("deleted_at"@));
    assert(seed_plan()[1].0 == "orders"@);
    assert forall|j: int| 0 <= j < seed_plan()[1].1.len() implies name_fits(
        #[trigger] seed_plan()[1].1[j].0,
    ) by {
        if j == 0 {
            assert(seed_plan()[1].1[0].0 == "id"@);
        } else if j == 1 {
            assert(seed_plan()[1].1[1].0 == "user_id"@);
        } else if j == 2 {
            assert(seed_plan()[1].1[2].0 == "status"@);
        } else if j == 3 {
            assert(seed_plan()[1].1[3].0 == "subtotal"@);
        } else if j == 4 {
            assert(seed_plan()[1].1[4].0 == "tax"@);
        } else if j == 5 {
            assert(seed_plan()[1].1[5].0 == "total"@);
        } else if j == 6 {
            assert(seed_plan()[1].1[6].0 == "currency"@);
        } else if j == 7 {
            assert(seed_plan()[1].1[7].0 == "created_at"@);
        } else if j == 8 {
            assert(seed_plan()[1].1[8].0 == "updated_at"@);
        } else if j == 9 {
            assert(seed_plan()[1].1[9].0 == "deleted_at"@);
        }
    }
}

proof fn lemma_plan_entry_2()
    ensures
        plan_entry_fits(seed_plan()[2]),
{
    reveal_strlit("products");
    assert(is_ascii_chars("products"@));
    assert(name_fits("products"@));
    reveal_strlit("id");
    assert(is_ascii_chars("id"@));
    assert(name_fits("id"@));
    reveal_strlit("sku");
    assert(is_ascii_chars("sku"@));
    assert(name_fits("sku"@));
    reveal_strlit("name");
    assert(is_ascii_chars("name"@));
    assert(name_fits("name"@));
    reveal_strlit("description");
    assert(is_ascii_chars("description"@));
    assert(name_fits("description"@));
    reveal_strlit("price");
    assert(is_ascii_chars("price"@));
    assert(name_fits("price"@));
    reveal_strlit("stock");
    assert(is_ascii_chars("stock"@));
    assert(name_fits("stock"@));
    reveal_strlit("category_id");
    assert(is_ascii_chars("category_id"@));
    assert(name_fits("category_id"@));
    reveal_strlit("is_active");
    assert(is_ascii_chars("is_active"@));
    assert(name_fits("is_active"@));
    reveal_strlit("created_at");
    assert(is_ascii_chars("created_at"@));
    assert(name_fits("created_at"@));
    reveal_strlit("updated_at");
    assert(is_ascii_chars("updated_at"@));
    assert(name_fits("updated_at"@));
    assert(seed_plan()[2].0 == "products"@);
    assert forall|j: int| 0 <= j < seed_plan()[2].1.len() implies name_fits(
        #[trigger] seed_plan()[2].1[j].0,
    ) by {
        if j == 0 {
            assert(seed_plan()[2].1[0].0 == "id"@);
        } else if j == 1 {
            assert(seed_plan()[2].1[1].0 == "sku"@);
        } else if j == 2 {
            assert(seed_plan()[2].1[2].0 == "name"@);
        } else if j == 3 {
            assert(seed_plan()[2].1[3].0 == "description"@);
        } else if j == 4 {
            assert(seed_plan()[2].1[4].0 == "price"@);
        } else if j == 5 {
            assert(seed_plan()[2].1[5].0 == "stock"@);
        } else if j == 6 {
            assert(seed_plan()[2].1[6].0 == "category_id"@);
        } else if j == 7 {
            assert(seed_plan()[2].1[7].0 == "is_active"@);
        } else if j == 8 {
            assert(seed_plan()[2].1[8].0 == "created_at"@);
        } else if j == 9 {
            assert(seed_plan()[2].1[9].0 == "updated_at"@);
        }
    }
}

proof fn lemma_plan_entry_3()
    ensures
        plan_entry_fits(seed_plan()[3]),
{
    reveal_strlit("categories");
    assert(is_ascii_chars("categories"@));
    assert(name_fits("categories"@));
    reveal_strlit("id");
    assert(is_ascii_chars("id"@));
    assert(name_fits("id"@));
    reveal_strlit("name");
    assert(is_ascii_chars("name"@));
    assert(name_fits("name"@));
    reveal_strlit("slug");
    assert(is_ascii_chars("slug"@));
    assert(name_fits("slug"@));
    reveal_strlit("parent_id");
    assert(is_ascii_chars("parent_id"@));
    assert(name_fits("parent_id"@));
    reveal_strlit("sort_order");
    assert(is_ascii_chars("sort_order"@));
    assert(name_fits("sort_order"@));
    reveal_strlit("is_active");
    assert(is_ascii_chars("is_active"@));
    assert(name_fits("is_active"@));
    reveal_strlit("created_at");
    assert(is_ascii_chars("created_at"@));
    assert(name_fits("created_at"@));
    reveal_strlit("updated_at");
    assert(is_ascii_chars("updated_at"@));
    assert(name_fits("updated_at"@));
    reveal_strlit("deleted_at");
    assert(is_ascii_chars("deleted_at"@));
    assert(name_fits("deleted_at"@));
    reveal_strlit("metadata");
    assert(is_ascii_chars("metadata"@));
    assert(name_fits("metadata"@));
    assert(seed_plan()[3].0 == "categories"@);
    assert forall|j: int| 0 <= j < seed_plan()[3].1.len() implies name_fits(
        #[trigger] seed_plan()[3].1[j].0,
    ) by {
        if j == 0 {
            assert(seed_plan()[3].1[0].0 == "id"@);
        } else if j == 1 {
            assert(seed_plan()[3].1[1].0 == "name"@);
        } else if j == 2 {
            assert(seed_plan()[3].1[2].0 == "slug"@);
        } else if j == 3 {
            assert(seed_plan()[3].1[3].0 == "parent_id"@);
        } else if j == 4 {
            assert(seed_plan()[3].1[4].0 == "sort_order"@);
        } else if j == 5 {
            assert(seed_plan()[3].1[5].0 == "is_active"@);
        } else if j == 6 {
            assert(seed_plan()[3].1[6].0 == "created_at"@);
        } else if j == 7 {
            assert(seed_plan()[3].1[7].0 == "updated_at"@);
        } else if j == 8 {
            assert(seed_plan()[3].1[8].0 == "deleted_at"@);
        } else if j == 9 {
            assert(seed_plan()[3].1[9].0 == "metadata"@);
        }
    }
}

proof fn lemma_plan_entry_4()
    ensures
        plan_entry_fits(seed_plan()[4]),
{
    reveal_strlit("payments");
    assert(is_ascii_chars("payments"@));
    assert(name_fits("payments"@));
    reveal_strlit("id");
    assert(is_ascii_chars("id"@));
    assert(name_fits("id"@));
    reveal_strlit("order_id");
    assert(is_ascii_chars("order_id"@));
    assert(name_fits("order_id"@));
    reveal_strlit("provider");
    assert(is_ascii_chars("provider"@));
    assert(name_fits("provider"@));
    reveal_strlit("provider_ref");
    assert(is_ascii_chars("provider_ref"@));
    assert(name_fits("provider_ref"@));
    reveal_strlit("amount");
    assert(is_ascii_chars("amount"@));
    assert(name_fits("amount"@));
    reveal_strlit("currency");
    assert(is_ascii_chars("currency"@));
    assert(name_fits("currency"@));
    reveal_strlit("status");
    assert(is_ascii_chars("status"@));
    assert(name_fits("status"@));
    reveal_strlit("paid_at");
    assert(is_ascii_chars("paid_at"@));
    assert(name_fits("paid_at"@));
    reveal_strlit("created_at");
    assert(is_ascii_chars("created_at"@));
    assert(name_fits("created_at"@));
    reveal_strlit("updated_at");
    assert(is_ascii_chars("updated_at"@));
    assert(name_fits("updated_at"@));
    assert(seed_plan()[4].0 == "payments"@);
    assert forall|j: int| 0 <= j < seed_plan()[4].1.len() implies name_fits(
        #[trigger] seed_plan()[4].1[j].0,
    ) by {
        if j == 0 {
            assert(seed_plan()[4].1[0].0 == "id"@);
        } else if j == 1 {
            assert(seed_plan()[4].1[1].0 == "order_id"@);
        } else if j == 2 {
            assert(seed_plan()[4].1[2].0 == "provider"@);
        } else if j == 3 {
            assert(seed_plan()[4].1[3].0 == "provider_ref"@);
        } else if j == 4 {
            assert(seed_plan()[4].1[4].0 == "amount"@);
        } else if j == 5 {
            assert(seed_plan()[4].1[5].0 == "currency"@);
        } else if j == 6 {
            assert(seed_plan()[4].1[6].0 == "status"@);
        } else if j == 7 {
            assert(seed_plan()[4].1[7].0 == "paid_at"@);
        } else if j == 8 {
            assert(seed_plan()[4].1[8].0 == "created_at"@);
        } else if j == 9 {
            assert(seed_plan()[4].1[9].0 == "updated_at"@);
        }
    }
}

proof fn lemma_plan_entry_5()
    ensures
        plan_entry_fits(seed_plan()[5]),
{
    reveal_strlit("addresses");
    assert(is_ascii_chars("addresses"@));
    assert(name_fits("addresses"@));
    reveal_strlit("id");
    assert(is_ascii_chars("id"@));
    assert(name_fits("id"@));
    reveal_strlit("user_id");
    assert(is_ascii_chars("user_id"@));
    assert(name_fits("user_id"@));
    reveal_strlit("line1");
    assert(is_ascii_chars("line1"@));
    assert(name_fits("line1"@));
    reveal_strlit("line2");
    assert(is_ascii_chars("line2"@));
    assert(name_fits("line2"@));
    reveal_strlit("city");
    assert(is_ascii_chars("city"@));
    assert(name_fits("city"@));
    reveal_strlit("country");
    assert(is_ascii_chars("country"@));
    assert(name_fits("country"@));
    reveal_strlit("postal_code");
    assert(is_ascii_chars("postal_code"@));
    assert(name_fits("postal_code"@));
    reveal_strlit("is_default");
    assert(is_ascii_chars("is_default"@));
    assert(name_fits("is_default"@));
    reveal_strlit("created_at");
    assert(is_ascii_chars("created_at"@));
    assert(name_fits("created_at"@));
    reveal_strlit("updated_at");
    assert(is_ascii_chars("updated_at"@));
    assert(name_fits("updated_at"@));
    assert(seed_plan()[5].0 == "addresses"@);
    assert forall|j: int| 0 <= j < seed_plan()[5].1.len() implies name_fits(
        #[trigger] seed_plan()[5].1[j].0,
    ) by {
        if j == 0 {
            assert(seed_plan()[5].1[0].0 == "id"@);
        } else if j == 1 {
            assert(seed_plan()[5].1[1].0 == "user_id"@);
        } else if j == 2 {
            assert(seed_plan()[5].1[2].0 == "line1"@);
        } else if j == 3 {
            assert(seed_plan()[5].1[3].0 == "line2"@);
        } else if j == 4 {
            assert(seed_plan()[5].1[4].0 == "city"@);
        } else if j == 5 {
            assert(seed_plan()[5].1[5].0 == "country"@);
        } else if j == 6 {
            assert(seed_plan()[5].1[6].0 == "postal_code"@);
        } else if j == 7 {
            assert(seed_plan()[5].1[7].0 == "is_default"@);
        } else if j == 8 {
            assert(seed_plan()[5].1[8].0 == "created_at"@);
        } else if j == 9 {
            assert(seed_plan()[5].1[9].0 == "updated_at"@);
        }
    }
}

proof fn lemma_plan_entry_6()
    ensures
        plan_entry_fits(seed_plan()[6]),
{
    reveal_strlit("sessions");
    assert(is_ascii_chars("sessions"@));
    assert(name_fits("sessions"@));
    reveal_strlit("id");
    assert(is_ascii_chars("id"@));
    assert(name_fits("id"@));
    reveal_strlit("user_id");
    assert(is_ascii_chars("user_id"@));
    assert(name_fits("user_id"@));
    reveal_strlit("token");
    assert(is_ascii_chars("token"@));
    assert(name_fits("token"@));
    reveal_strlit("ip_address");
    assert(is_ascii_chars("ip_address"@));
    assert(name_fits("ip_address"@));
    reveal_strlit("user_agent");
    assert(is_ascii_chars("user_agent"@));
    assert(name_fits("user_agent"@));
    reveal_strlit("expires_at");
    assert(is_ascii_chars("expires_at"@));
    assert(name_fits("expires_at"@));
    reveal_strlit("revoked_at");
    assert(is_ascii_chars("revoked_at"@));
    assert(name_fits("revoked_at"@));
    reveal_strlit("created_at");
    assert(is_ascii_chars("created_at"@));
    assert(name_fits("created_at"@));
    reveal_strlit("updated_at");
    assert(is_ascii_chars("updated_at"@));
    assert(name_fits("updated_at"@));
    reveal_strlit("last_seen_at");
    assert(is_ascii_chars("last_seen_at"@));
    assert(name_fits("last_seen_at"@));
    assert(seed_plan()[6].0 == "sessions"@);
    assert forall|j: int| 0 <= j < seed_plan()[6].1.len() implies name_fits(
        #[trigger] seed_plan()[6].1[j].0,
    ) by {
        if j == 0 {
            assert(seed_plan()[6].1[0].0 == "id"@);
        } else if j == 1 {
            assert(seed_plan()[6].1[1].0 == "user_id"@);
        } else if j == 2 {
            assert(seed_plan()[6].1[2].0 == "token"@);
        } else if j == 3 {
            assert(seed_plan()[6].1[3].0 == "ip_address"@);
        } else if j == 4 {
            assert(seed_plan()[6].1[4].0 == "user_agent"@);
        } else if j == 5 {
            assert(seed_plan()[6].1[5].0 == "expires_at"@);
        } else if j == 6 {
            assert(seed_plan()[6].1[6].0 == "revoked_at"@);
        } else if j == 7 {
            assert(seed_plan()[6].1[7].0 == "created_at"@);
        } else if j == 8 {
            assert(seed_plan()[6].1[8].0 == "updated_at"@);
        } else if j == 9 {
            assert(seed_plan()[6].1[9].0 == "last_seen_at"@);
        }
    }
}

proof fn lemma_plan_entry_7()
    ensures
        plan_entry_fits(seed_plan()[7]),
{
    reveal_strlit("roles");
    assert(is_ascii_chars("roles"@));
    assert(name_fits("roles"@));
    reveal_strlit("id");
    assert(is_ascii_chars("id"@));
    assert(name_fits("id"@));
    reveal_strlit("name");
    assert(is_ascii_chars("name"@));
    assert(name_fits("name"@));
    reveal_strlit("description");
    assert(is_ascii_chars("description"@));
    assert(name_fits("description"@));
    reveal_strlit("is_system");
    assert(is_ascii_chars("is_system"@));
    assert(name_fits("is_system"@));
    reveal_strlit("created_at");
    assert(is_ascii_chars("created_at"@));
    assert(name_fits("created_at"@));
    reveal_strlit("updated_at");
    assert(is_ascii_chars("updated_at"@));
    assert(name_fits("updated_at"@));
    reveal_strlit("deleted_at");
    assert(is_ascii_chars("deleted_at"@));
    assert(name_fits("deleted_at"@));
    reveal_strlit("permissions");
    assert(is_ascii_chars("permissions"@));
    assert(name_fits("permissions"@));
    reveal_strlit("priority");
    assert(is_ascii_chars("priority"@));
    assert(name_fits("priority"@));
    reveal_strlit("metadata");
    assert(is_ascii_chars("metadata"@));
    assert(name_fits("metadata"@));
    assert(seed_plan()[7].0 == "roles"@);
    assert forall|j: int| 0 <= j < seed_plan()[7].1.len() implies name_fits(
        #[trigger] seed_plan()[7].1[j].0,
    ) by {
        if j == 0 {
            assert(seed_plan()[7].1[0].0 == "id"@);
        } else if j == 1 {
            assert(seed_plan()[7].1[1].0 == "name"@);
        } else if j == 2 {
            assert(seed_plan()[7].1[2].0 == "description"@);
        } else if j == 3 {
            assert(seed_plan()[7].1[3].0 == "is_system"@);
        } else if j == 4 {
            assert(seed_plan()[7].1[4].0 == "created_at"@);
        } else if j == 5 {
            assert(seed_plan()[7].1[5].0 == "updated_at"@);
        } else if j == 6 {
            assert(seed_plan()[7].1[6].0 == "deleted_at"@);
        } else if j == 7 {
            assert(seed_plan()[7].1[7].0 == "permissions"@);
        } else if j == 8 {
            assert(seed_plan()[7].1[8].0 == "priority"@);
        } else if j == 9 {
            assert(seed_plan()[7].1[9].0 == "metadata"@);
        }
    }
}

proof fn lemma_plan_entry_8()
    ensures
        plan_entry_fits(seed_plan()[8]),
{
    reveal_strlit("user_roles");
    assert(is_ascii_chars("user_roles"@));
    assert(name_fits("user_roles"@));
    reveal_strlit("id");
    assert(is_ascii_chars("id"@));
    assert(name_fits("id"@));
    reveal_strlit("user_id");
    assert(is_ascii_chars("user_id"@));
    assert(name_fits("user_id"@));
    reveal_strlit("role_id");
    assert(is_ascii_chars("role_id"@));
    assert(name_fits("role_id"@));
    reveal_strlit("assigned_by");
    assert(is_ascii_chars("assigned_by"@));
    assert(name_fits("assigned_by"@));
    reveal_strlit("assigned_at");
    assert(is_ascii_chars("assigned_at"@));
    assert(name_fits("assigned_at"@));
    reveal_strlit("expires_at");
    assert(is_ascii_chars("expires_at"@));
    assert(name_fits("expires_at"@));
    reveal_strlit("is_active");
    assert(is_ascii_chars("is_active"@));
    assert(name_fits("is_active"@));
    reveal_strlit("created_at");
    assert(is_ascii_chars("created_at"@));
    assert(name_fits("created_at"@));
    reveal_strlit("updated_at");
    assert(is_ascii_chars("updated_at"@));
    assert(name_fits("updated_at"@));
    reveal_strlit("deleted_at");
    assert(is_ascii_chars("deleted_at"@));
    assert(name_fits("deleted_at"@));
    assert(seed_plan()[8].0 == "user_roles"@);
    assert forall|j: int| 0 <= j < seed_plan()[8].1.len() implies name_fits(
        #[trigger] seed_plan()[8].1[j].0,
    ) by {
        if j == 0 {
            assert(seed_plan()[8].1[0].0 == "id"@);
        } else if j == 1 {
            assert(seed_plan()[8].1[1].0 == "user_id"@);
        } else if j == 2 {
            assert(seed_plan()[8].1[2].0 == "role_id"@);
        } else if j == 3 {
            assert(seed_plan()[8].1[3].0 == "assigned_by"@);
        } else if j == 4 {
            assert(seed_plan()[8].1[4].0 == "assigned_at"@);
        } else if j == 5 {
            assert(seed_plan()[8].1[5].0 == "expires_at"@);
        } else if j == 6 {
            assert(seed_plan()[8].1[6].0 == "is_active"@);
        } else if j == 7 {
            assert(seed_plan()[8].1[7].0 == "created_at"@);
        } else if j == 8 {
            assert(seed_plan()[8].1[8].0 == "updated_at"@);
        } else if j == 9 {
            assert(seed_plan()[8].1[9].0 == "deleted_at"@);
        }
    }
}

proof fn lemma_plan_entry_9()
    ensures
        plan_entry_fits(seed_plan()[9]),
{
    reveal_strlit("audit_logs");
    assert(is_ascii_chars("audit_logs"@));
    assert(name_fits("audit_logs"@));
    reveal_strlit("id");
    assert(is_ascii_chars("id"@));
    assert(name_fits("id"@));
    reveal_strlit("actor_id");
    assert(is_ascii_chars("actor_id"@));
    assert(name_fits("actor_id"@));
    reveal_strlit("action");
    assert(is_ascii_chars("action"@));
    assert(name_fits("action"@));
    reveal_strlit("entity");
    assert(is_ascii_chars("entity"@));
    assert(name_fits("entity"@));
    reveal_strlit("entity_id");
    assert(is_ascii_chars("entity_id"@));
    assert(name_fits("entity_id"@));
    reveal_strlit("payload");
    assert(is_ascii_chars("payload"@));
    assert(name_fits("payload"@));
    reveal_strlit("ip_address");
    assert(is_ascii_chars("ip_address"@));
    assert(name_fits("ip_address"@));
    reveal_strlit("created_at");
    assert(is_ascii_chars("created_at"@));
    assert(name_fits("created_at"@));
    reveal_strlit("request_id");
    assert(is_ascii_chars("request_id"@));
    assert(name_fits("request_id"@));
    reveal_strlit("severity");
    assert(is_ascii_chars("severity"@));
    assert(name_fits("severity"@));
    assert(seed_plan()[9].0 == "audit_logs"@);
    assert forall|j: int| 0 <= j < seed_plan()[9].1.len() implies name_fits(
        #[trigger] seed_plan()[9].1[j].0,
    ) by {
        if j == 0 {
            assert(seed_plan()[9].1[0].0 == "id"@);
        } else if j == 1 {
            assert(seed_plan()[9].1[1].0 == "actor_id"@);
        } else if j == 2 {
            assert(seed_plan()[9].1[2].0 == "action"@);
        } else if j == 3 {
            assert(seed_plan()[9].1[3].0 == "entity"@);
        } else if j == 4 {
            assert(seed_plan()[9].1[4].0 == "entity_id"@);
        } else if j == 5 {
            assert(seed_plan()[9].1[5].0 == "payload"@);
        } else if j == 6 {
            assert(seed_plan()[9].1[6].0 == "ip_address"@);
        } else if j == 7 {
            assert(seed_plan()[9].1[7].0 == "created_at"@);
        } else if j == 8 {
            assert(seed_plan()[9].1[8].0 == "request_id"@);
        } else if j == 9 {
            assert(seed_plan()[9].1[9].0 == "severity"@);
        }
    }
}

/// Every table of the seed schema has ten columns, and every name in it is
/// short.
pub proof fn lemma_plan_fits()
    ensures
        seed_plan().len() == 10,
        forall|i: int| 0 <= i < seed_plan().len() ==> plan_entry_fits(#[trigger] seed_plan()[i]),
{
    assert forall|i: int| 0 <= i < seed_plan().len() implies plan_entry_fits(
        #[trigger] seed_plan()[i],
    ) by {
        if i == 0 {
            lemma_plan_entry_0();
        } else if i == 1 {
            lemma_plan_entry_1();
        } else if i == 2 {
            lemma_plan_entry_2();
        } else if i == 3 {
            lemma_plan_entry_3();
        } else if i == 4 {
            lemma_plan_entry_4();
        } else if i == 5 {
            lemma_plan_entry_5();
        } else if i == 6 {
            lemma_plan_entry_6();
        } else if i == 7 {
            lemma_plan_entry_7();
        } else if i == 8 {
            lemma_plan_entry_8();
        } else if i == 9 {
            lemma_plan_entry_9();
        }
    }
}

/// The seed schema, as values.
fn seed_plan_exec() -> (r: Vec<(&'static str, Vec<(&'static str, ColumnType)>)>)
    ensures
        plan_view(r@) == seed_plan(),
{
    let r = vec![
                ("users", vec![
                    ("id", ColumnType::Integer64),
                    ("first_name", ColumnType::Utf8),
                    ("last_name", ColumnType::Utf8),
                    ("email", ColumnType::Utf8),
                    ("password_hash", ColumnType::Utf8),
                    ("dob", ColumnType::Timestamp),
                    ("is_active", ColumnType::Boolean),
                    ("created_at", ColumnType::Timestamp),
                    ("updated_at", ColumnType::Timestamp),
                    ("deleted_at", ColumnType::Timestamp),
                ]),
                ("orders", vec![
                    ("id", ColumnType::Integer64),
                    ("user_id", ColumnType::Integer64),
                    ("status", ColumnType::Utf8),
                    ("subtotal", ColumnType::Float64),
                    ("tax", ColumnType::Float64),
                    ("total", ColumnType::Float64),
                    ("currency", ColumnType::Utf8),
                    ("created_at", ColumnType::Timestamp),
                    ("updated_at", ColumnType::Timestamp),
                    ("deleted_at", ColumnType::Timestamp),
                ]),
                ("products", vec![
                    ("id", ColumnType::Integer64),
                    ("sku", ColumnType::Utf8),
                    ("name", ColumnType::Utf8),
                    ("description", ColumnType::Utf8),
                    ("price", ColumnType::Float64),
                    ("stock", ColumnType::Integer32),
                    ("category_id", ColumnType::Integer64),
                    ("is_active", ColumnType::Boolean),
                    ("created_at", ColumnType::Timestamp),
                    ("updated_at", ColumnType::Timestamp),
                ]),
                ("categories", vec![
                    ("id", ColumnType::Integer64),
                    ("name", ColumnType::Utf8),
                    ("slug", ColumnType::Utf8),
                    ("parent_id", ColumnType::Integer64),
                    ("sort_order", ColumnType::Integer32),
                    ("is_active", ColumnType::Boolean),
                    ("created_at", ColumnType::Timestamp),
                    ("updated_at", ColumnType::Timestamp),
                    ("deleted_at", ColumnType::Timestamp),
                    ("metadata", ColumnType::Utf8),
                ]),
                ("payments", vec![
                    ("id", ColumnType::Integer64),
                    ("order_id", ColumnType::Integer64),
                    ("provider", ColumnType::Utf8),
                    ("provider_ref", ColumnType::Utf8),
                    ("amount", ColumnType::Float64),
                    ("currency", ColumnType::Utf8),
                    ("status", ColumnType::Utf8),
                    ("paid_at", ColumnType::Timestamp),
                    ("created_at", ColumnType::Timestamp),
                    ("updated_at", ColumnType::Timestamp),
                ]),
                ("addresses", vec![
                    ("id", ColumnType::Integer64),
                    ("user_id", ColumnType::Integer64),
                    ("line1", ColumnType::Utf8),
                    ("line2", ColumnType::Utf8),
                    ("city", ColumnType::Utf8),
                    ("country", ColumnType::Utf8),
                    ("postal_code", ColumnType::Utf8),
                    ("is_default", ColumnType::Boolean),
                    ("created_at", ColumnType::Timestamp),
                    ("updated_at", ColumnType::Timestamp),
                ]),
                ("sessions", vec![
                    ("id", ColumnType::Integer64),
                    ("user_id", ColumnType::Integer64),
                    ("token", ColumnType::Utf8),
                    ("ip_address", ColumnType::Utf8),
                    ("user_agent", ColumnType::Utf8),
                    ("expires_at", ColumnType::Timestamp),
                    ("revoked_at", ColumnType::Timestamp),
                    ("created_at", ColumnType::Timestamp),
                    ("updated_at", ColumnType::Timestamp),
                    ("last_seen_at", ColumnType::Timestamp),
                ]),
                ("roles", vec![
                    ("id", ColumnType::Integer64),
                    ("name", ColumnType::Utf8),
                    ("description", ColumnType::Utf8),
                    ("is_system", ColumnType::Boolean),
                    ("created_at", ColumnType::Timestamp),
                    ("updated_at", ColumnType::Timestamp),
                    ("deleted_at", ColumnType::Timestamp),
                    ("permissions", ColumnType::Utf8),
                    ("priority", ColumnType::Integer32),
                    ("metadata", ColumnType::Utf8),
                ]),
                ("user_roles", vec![
                    ("id", ColumnType::Integer64),
                    ("user_id", ColumnType::Integer64),
                    ("role_id", ColumnType::Integer64),
                    ("assigned_by", ColumnType::Integer64),
                    ("assigned_at", ColumnType::Timestamp),
                    ("expires_at", ColumnType::Timestamp),
                    ("is_active", ColumnType::Boolean),
                    ("created_at", ColumnType::Timestamp),
                    ("updated_at", ColumnType::Timestamp),
                    ("deleted_at", ColumnType::Timestamp),
                ]),
                ("audit_logs", vec![
                    ("id", ColumnType::Integer64),
                    ("actor_id", ColumnType::Integer64),
                    ("action", ColumnType::Utf8),
                    ("entity", ColumnType::Utf8),
                    ("entity_id", ColumnType::Integer64),
                    ("payload", ColumnType::Utf8),
                    ("ip_address", ColumnType::Utf8),
                    ("created_at", ColumnType::Timestamp),
                    ("request_id", ColumnType::Integer64),
                    ("severity", ColumnType::Integer32),
                ]),
            ];
    proof {
        assert(cols_view(r@[0].1@) =~= seed_plan()[0].1);
        assert(cols_view(r@[1].1@) =~= seed_plan()[1].1);
        assert(cols_view(r@[2].1@) =~= seed_plan()[2].1);
        assert(cols_view(r@[3].1@) =~= seed_plan()[3].1);
        assert(cols_view(r@[4].1@) =~= seed_plan()[4].1);
        assert(cols_view(r@[5].1@) =~= seed_plan()[5].1);
        assert(cols_view(r@[6].1@) =~= seed_plan()[6].1);
        assert(cols_view(r@[7].1@) =~= seed_plan()[7].1);
        assert(cols_view(r@[8].1@) =~= seed_plan()[8].1);
        assert(cols_view(r@[9].1@) =~= seed_plan()[9].1);
        assert(plan_view(r@) =~= seed_plan());
    }
    r
}

impl Database {
    /// Puts one table of a schema in place: creates it when no table has
    /// its name, then adds each column that it lacks.
    pub fn seed_table(&mut self, name: &str, cols: &Vec<(&str, ColumnType)>) -> (r: Result<(), FluxError>)
        requires
            old(self).wf(),
        ensures
            final(self).wf(),
            keeps_seeded(old(self).catalog@, final(self).catalog@),
            columns_owned(old(self).catalog@) ==> columns_owned(final(self).catalog@),
            r is Ok ==> table_seeded(final(self).catalog@, name@, cols_view(cols@)),
            table_seeded(old(self).catalog@, name@, cols_view(cols@)) ==> r is Ok && final(self).catalog@
                == old(self).catalog@ && final(self).pager.bytes() == old(self).pager.bytes(),
            used_at_most(*old(self), *final(self), 1, cols@.len() as int),
            room_for(*old(self), 1, cols@.len() as int) && name_fits(name@) && (forall|j: int|
                0 <= j < cols@.len() ==> name_fits(#[trigger] cols_view(cols@)[j].0)) ==> r is Ok,
    {
        let ghost c0 = self.catalog@;
        let ghost b0 = self.pager.bytes();
        let ghost cv = cols_view(cols@);
        if self.catalog.table_id_by_name(name).is_none() {
            let ghost before = self.catalog@;
            proof {
                let v = TableMetaView { table_id: self.root().next_table_id, name: name@ };
                assert(typed_record::<TableMeta>(v).len() == 5 + encode_utf8(name@).len());
            }
            match self.create_table(name) {
                Ok(_) => {},
                Err(e) => {
                    return Err(e);
                },
            }
            proof {
                lemma_keeps_new_table(
                    before,
                    TableMetaView { table_id: self.catalog@.tables.last().table_id, name: name@ },
                );
                assert(self.catalog@.tables.drop_last() =~= before.tables);
            }
        }
        let ghost tid = table_named(self.catalog@.tables, name@)->Some_0;
        let mut i: usize = 0;
        while i < cols.len()
            invariant
                0 <= i <= cols@.len(),
                cv == cols_view(cols@),
                c0 == old(self).catalog@,
                b0 == old(self).pager.bytes(),
                self.wf(),
                keeps_seeded(c0, self.catalog@),
                columns_owned(c0) ==> columns_owned(self.catalog@),
                table_named(self.catalog@.tables, name@) == Some(tid),
                forall|j: int| 0 <= j < i ==> has_col(self.catalog@, tid, #[trigger] cv[j].0),
                table_seeded(c0, name@, cv) ==> self.catalog@ == c0 && self.pager.bytes() == b0,
                used_at_most(*old(self), *self, 1, i as int),
            decreases cols@.len() - i,
        {
            let (cname, ctype) = cols[i];
            let ghost before = self.catalog@;
            proof {
                assert(cv[i as int].0 == cname@);
                if table_seeded(c0, name@, cv) {
                    assert(has_col(c0, tid, cv[i as int].0));
                }
            }
            proof {
                let v = TableColumnView {
                    table_id: tid,
                    column_id: self.root().next_column_id,
                    column_type: ctype,
                    name: cname@,
                };
                assert(typed_record::<TableColumn>(v).len() == 10 + encode_utf8(cname@).len());
            }
            match self.add_column(name, cname, ctype) {
                Ok(_) => {},
                Err(e) => {
                    assert(self.catalog@ == before);
                    return Err(e);
                },
            }
            proof {
                assert(cv[i as int].0 == cname@);
                if self.catalog@ != before {
                    let col = self.catalog@.columns.last();
                    assert(self.catalog@.columns.drop_last() =~= before.columns);
                    assert(self.catalog@ == CatalogView { columns: before.columns.push(col), ..before });
                    lemma_keeps_new_column(before, col);
                    assert(self.catalog@.columns[self.catalog@.columns.len() - 1] == col);
                    assert forall|j: int| 0 <= j < i implies has_col(self.catalog@, tid, #[trigger] cv[j].0) by {
                        assert(has_col(before, tid, cv[j].0));
                        let k = choose|k: int|
                            0 <= k < before.columns.len() && (#[trigger] before.columns[k]).table_id == tid
                                && before.columns[k].name == cv[j].0;
                        assert(self.catalog@.columns[k] == before.columns[k]);
                    }
                }
                if table_seeded(c0, name@, cv) {
                    assert(has_col(c0, tid, cv[i as int].0));
                }
            }
            i = i + 1;
        }
        Ok(())
    }

    /// Seeds the built-in schema: each table of it is created unless a table
    /// of that name exists, and each of its columns is added unless the
    /// table has a column of that name.
    pub fn seed_schema(&mut self) -> (r: Result<(), FluxError>)
        requires
            old(self).wf(),
        ensures
            final(self).wf(),
            seed_effect(*old(self), *final(self), r is Ok),
            used_at_most(*old(self), *final(self), 10, 100),
            room_for(*old(self), 10, 100) ==> r is Ok,
    {
        let plan = seed_plan_exec();
        proof {
            lemma_plan_fits();
        }
        let ghost c0 = self.catalog@;
        let ghost b0 = self.pager.bytes();
        let mut i: usize = 0;
        while i < plan.len()
            invariant
                0 <= i <= plan@.len(),
                plan_view(plan@) == seed_plan(),
                c0 == old(self).catalog@,
                b0 == old(self).pager.bytes(),
                self.wf(),
                keeps_seeded(c0, self.catalog@),
                columns_owned(c0) ==> columns_owned(self.catalog@),
                forall|j: int|
                    0 <= j < i ==> table_seeded(self.catalog@, #[trigger] seed_plan()[j].0, seed_plan()[j].1),
                seeded(c0) ==> self.catalog@ == c0 && self.pager.bytes() == b0,
                used_at_most(*old(self), *self, i as int, 10 * i),
                seed_plan().len() == 10,
                forall|k: int| 0 <= k < seed_plan().len() ==> plan_entry_fits(#[trigger] seed_plan()[k]),
            decreases plan@.len() - i,
        {
            let ghost before = self.catalog@;
            let entry = &plan[i];
            let ghost e = plan_view(plan@)[i as int];
            proof {
                assert(e.0 == entry.0@ && e.1 == cols_view(entry.1@));
                if seeded(c0) {
                    assert(table_seeded(c0, seed_plan()[i as int].0, seed_plan()[i as int].1));
                }
                assert(plan_entry_fits(seed_plan()[i as int]));
                assert(entry.1@.len() == 10);
            }
            match self.seed_table(entry.0, &entry.1) {
                Ok(_) => {},
                Err(err) => {
                    proof {
                        lemma_keeps_trans(c0, before, self.catalog@);
                    }
                    return Err(err);
                },
            }
            proof {
                lemma_keeps_trans(c0, before, self.catalog@);
                assert forall|j: int| 0 <= j <= i implies table_seeded(
                    self.catalog@,
                    #[trigger] seed_plan()[j].0,
                    seed_plan()[j].1,
                ) by {
                    if j < i {
                        assert(table_seeded(before, seed_plan()[j].0, seed_plan()[j].1));
                    }
                }
                if seeded(c0) {
                    assert(table_seeded(c0, seed_plan()[i as int].0, seed_plan()[i as int].1));
                }
            }
            i = i + 1;
        }
        Ok(())
    }
}

} // verus!
