//! The SQLite-backed transaction store.
//!
//! The store holds three tables: transactions (id, integer value in
//! minor currency units, name, optional description, creation date),
//! categories (id, unique normalized label) and the links between them,
//! with cascade delete on both foreign keys.  Verus sees the store
//! through three named table contents and a handful of trusted wrappers
//! around rusqlite calls; everything layered on top of the wrappers is
//! verified.

use vstd::prelude::*;

use rusqlite::Connection;

use crate::models::BasicReport;
use crate::models::Category;
use crate::models::LinkRow;
use crate::models::LinkRowV;
use crate::models::ReportError;
use crate::models::ReportType;
use crate::models::TxnRow;
use crate::models::TxnRowV;

verus! {

#[verifier::external_type_specification]
#[verifier::external_body]
pub struct ExConnection(Connection);

/// The rows of the transactions table, keyed by id, carrying the value
/// and the creation date; empty where the table is missing.
pub uninterp spec fn txn_table(db: Connection) -> Map<int, (int, Seq<char>)>;

/// The rows of the categories table, keyed by id, carrying the label;
/// empty where the table is missing.
pub uninterp spec fn cat_table(db: Connection) -> Map<int, Seq<char>>;

/// The rows of the link table, as (transaction id, category id) pairs;
/// empty where the table is missing.
pub uninterp spec fn link_table(db: Connection) -> Set<(int, int)>;

/// `s` enumerates the transaction table `m` in ascending id order.
pub open spec fn is_txn_snapshot(s: Seq<TxnRowV>, m: Map<int, (int, Seq<char>)>) -> bool {
    &&& forall|i: int, j: int| 0 <= i < j < s.len() ==> s[i].id < s[j].id
    &&& forall|i: int|
        0 <= i < s.len() ==> m.contains_key((#[trigger] s[i]).id) && m[s[i].id] == (
            s[i].value,
            s[i].date,
        )
    &&& forall|k: int| #[trigger] m.contains_key(k) ==> exists|i: int| 0 <= i < s.len() && s[i].id == k
}

/// Lexicographic order on (transaction id, category id) pairs.
pub open spec fn link_lt(a: LinkRowV, b: LinkRowV) -> bool {
    a.tid < b.tid || (a.tid == b.tid && a.cid < b.cid)
}

/// `s` enumerates, in (transaction id, category id) order, the link
/// pairs whose category exists, each joined with its category's label.
pub open spec fn is_link_snapshot(
    s: Seq<LinkRowV>,
    links: Set<(int, int)>,
    cats: Map<int, Seq<char>>,
) -> bool {
    &&& forall|i: int, j: int| 0 <= i < j < s.len() ==> link_lt(s[i], s[j])
    &&& forall|i: int|
        0 <= i < s.len() ==> links.contains(((#[trigger] s[i]).tid, s[i].cid))
            && cats.contains_key(s[i].cid) && cats[s[i].cid] == s[i].label
    &&& forall|p: (int, int)|
        #[trigger] links.contains(p) && cats.contains_key(p.1) ==> exists|i: int|
            0 <= i < s.len() && (#[trigger] s[i]).tid == p.0 && s[i].cid == p.1
}

/// All three tables hold no rows.
pub open spec fn store_empty(db: Connection) -> bool {
    txn_table(db) == Map::<int, (int, Seq<char>)>::empty() && cat_table(db) == Map::<
        int,
        Seq<char>,
    >::empty() && link_table(db) == Set::<(int, int)>::empty()
}

/// Relies on rusqlite's `Connection::open_in_memory`: a newly opened
/// in-memory database holds no data at all.
#[verifier::external_body]
fn open_memory_connection() -> (r: Result<Connection, ReportError>)
    ensures
        r matches Ok(db) ==> store_empty(db),
{
    Connection::open_in_memory().map_err(|_| ReportError::StoreFailure)
}

/// Creates the store's tables where they are missing.
///
/// Relies on rusqlite's `Connection::execute_batch` and SQLite's
/// `CREATE TABLE IF NOT EXISTS`: a created table starts empty, an
/// existing one keeps its rows, and no statement here touches rows.
#[verifier::external_body]
pub fn init_tables(db: &mut Connection) -> (r: Result<(), ReportError>)
    ensures
        txn_table(*final(db)) == txn_table(*old(db)),
        cat_table(*final(db)) == cat_table(*old(db)),
        link_table(*final(db)) == link_table(*old(db)),
{
    db.execute_batch(
        "CREATE TABLE IF NOT EXISTS categories (id INTEGER PRIMARY KEY AUTOINCREMENT, label TEXT NOT NULL UNIQUE);
        CREATE TABLE IF NOT EXISTS transactions (id INTEGER PRIMARY KEY AUTOINCREMENT, value INTEGER NOT NULL, name TEXT NOT NULL, description TEXT, date_created TEXT NOT NULL);
        CREATE TABLE IF NOT EXISTS transaction_categories (transaction_id INTEGER NOT NULL, category_id INTEGER NOT NULL, PRIMARY KEY (transaction_id, category_id), FOREIGN KEY (category_id) REFERENCES categories(id) ON DELETE CASCADE, FOREIGN KEY (transaction_id) REFERENCES transactions(id) ON DELETE CASCADE);",
    ).map_err(|_| ReportError::StoreFailure)
}

/// Drops the store's tables.
///
/// Relies on rusqlite's `Connection::execute_batch` and SQLite's `DROP
/// TABLE IF EXISTS`: afterwards no table holds any row.
#[verifier::external_body]
fn drop_tables(db: &mut Connection) -> (r: Result<(), ReportError>)
    ensures
        r is Ok ==> store_empty(*final(db)),
{
    db.execute_batch(
        "DROP TABLE IF EXISTS transaction_categories; DROP TABLE IF EXISTS transactions; DROP TABLE IF EXISTS categories;",
    ).map_err(|_| ReportError::StoreFailure)
}

/// Empties the store by dropping and recreating its tables.
pub fn reset_tables(db: &mut Connection) -> (r: Result<(), ReportError>)
    ensures
        r is Ok ==> store_empty(*final(db)),
{
    drop_tables(db)?;
    init_tables(db)?;
    Ok(())
}

/// Opens a fresh, empty in-memory store with its tables ready.
pub fn init_db_in_memory() -> (r: Result<Connection, ReportError>)
    ensures
        r matches Ok(db) ==> store_empty(db),
{
    let mut db = open_memory_connection()?;
    init_tables(&mut db)?;
    Ok(db)
}

/// Relies on rusqlite's `Connection::execute` over a single-row
/// `INSERT` and `Connection::last_insert_rowid`: on success exactly one
/// row is added, under a rowid that `AUTOINCREMENT` guarantees was
/// never used before; on failure nothing changes.
#[verifier::external_body]
fn insert_txn_row(
    db: &mut Connection,
    value: i64,
    name: &str,
    description: Option<&str>,
    date_created: &str,
) -> (r: Result<i64, ReportError>)
    ensures
        cat_table(*final(db)) == cat_table(*old(db)),
        link_table(*final(db)) == link_table(*old(db)),
        r matches Ok(id) ==> !txn_table(*old(db)).contains_key(id as int) && txn_table(*final(db))
            == txn_table(*old(db)).insert(id as int, (value as int, date_created@)),
        r is Err ==> txn_table(*final(db)) == txn_table(*old(db)),
{
    let go = || -> rusqlite::Result<i64> {
        db.execute(
            "INSERT INTO transactions (value, name, description, date_created) VALUES (?1, ?2, ?3, ?4)",
            (value, name, description, date_created),
        )?;
        Ok(db.last_insert_rowid())
    };
    go().map_err(|_| ReportError::StoreFailure)
}

/// Relies on rusqlite's `Connection::query_row` over `SELECT COUNT(*)`
/// on a primary key: the count is one where the id exists, zero where
/// it does not.
#[verifier::external_body]
fn category_id_count(db: &Connection, id: i64) -> (r: Result<i64, ReportError>)
    ensures
        r matches Ok(c) ==> c == (if cat_table(*db).contains_key(id as int) {
            1int
        } else {
            0int
        }),
{
    db.query_row("SELECT COUNT(*) FROM categories WHERE id = ?1", [id], |row| row.get(0)).map_err(
        |_| ReportError::StoreFailure,
    )
}

/// Relies on rusqlite's `Connection::execute` over a single-row
/// `INSERT` into the link table: on success exactly that pair is added;
/// on failure (duplicate pair, missing foreign key) nothing changes.
#[verifier::external_body]
fn insert_link_row(db: &mut Connection, tid: i64, cid: i64) -> (r: Result<(), ReportError>)
    ensures
        txn_table(*final(db)) == txn_table(*old(db)),
        cat_table(*final(db)) == cat_table(*old(db)),
        r is Ok ==> link_table(*final(db)) == link_table(*old(db)).insert((tid as int, cid as int)),
        r is Err ==> link_table(*final(db)) == link_table(*old(db)),
{
    db.execute(
        "INSERT INTO transaction_categories (transaction_id, category_id) VALUES (?1, ?2)",
        (tid, cid),
    ).map(|_| ()).map_err(|_| ReportError::StoreFailure)
}

/// Relies on rusqlite's `Connection::execute` over `INSERT OR IGNORE`
/// into a table whose label column is unique: an existing label leaves
/// the table alone, a new one is added under a fresh id.
#[verifier::external_body]
fn insert_category_row(db: &mut Connection, label: &str) -> (r: Result<(), ReportError>)
    ensures
        txn_table(*final(db)) == txn_table(*old(db)),
        link_table(*final(db)) == link_table(*old(db)),
        r is Err ==> cat_table(*final(db)) == cat_table(*old(db)),
        r is Ok ==> ((exists|i: int|
            cat_table(*old(db)).contains_key(i) && cat_table(*old(db))[i] == label@)
            ==> cat_table(*final(db)) == cat_table(*old(db))),
        r is Ok ==> (!(exists|i: int|
            cat_table(*old(db)).contains_key(i) && cat_table(*old(db))[i] == label@) ==> (exists|
            i: int,
        |
            !cat_table(*old(db)).contains_key(i) && cat_table(*final(db)) == cat_table(
                *old(db),
            ).insert(i, label@))),
{
    db.execute("INSERT OR IGNORE INTO categories (label) VALUES (?1)", [label]).map(
        |_| (),
    ).map_err(|_| ReportError::StoreFailure)
}

/// The lower-cased image of a string, as `str::to_lowercase` computes
/// it.
pub uninterp spec fn lower_of(s: Seq<char>) -> Seq<char>;

/// The whitespace-trimmed image of a string, as `str::trim` computes
/// it.
pub uninterp spec fn trim_of(s: Seq<char>) -> Seq<char>;

/// Relies on `str::to_lowercase`: the result depends on the characters
/// alone.
#[verifier::external_body]
fn lowercase(s: &str) -> (r: String)
    ensures
        r@ == lower_of(s@),
{
    s.to_lowercase()
}

/// Relies on `str::trim`: the result depends on the characters alone.
#[verifier::external_body]
fn trim_str(s: &str) -> (r: String)
    ensures
        r@ == trim_of(s@),
{
    s.trim().to_owned()
}

/// Stores a category under the normalized form of `label`: lower-cased,
/// then trimmed of surrounding whitespace.  A label already present
/// under that normalization is left alone.
pub fn insert_category(db: &mut Connection, label: &str) -> (r: Result<(), ReportError>)
    ensures
        txn_table(*final(db)) == txn_table(*old(db)),
        link_table(*final(db)) == link_table(*old(db)),
        r is Err ==> cat_table(*final(db)) == cat_table(*old(db)),
        r is Ok ==> ((exists|i: int|
            cat_table(*old(db)).contains_key(i) && cat_table(*old(db))[i] == trim_of(
                lower_of(label@),
            )) ==> cat_table(*final(db)) == cat_table(*old(db))),
        r is Ok ==> (!(exists|i: int|
            cat_table(*old(db)).contains_key(i) && cat_table(*old(db))[i] == trim_of(
                lower_of(label@),
            )) ==> (exists|i: int|
            !cat_table(*old(db)).contains_key(i) && cat_table(*final(db)) == cat_table(
                *old(db),
            ).insert(i, trim_of(lower_of(label@))))),
{
    let lowered = lowercase(label);
    let normalized = trim_str(lowered.as_str());
    insert_category_row(db, normalized.as_str())
}

/// Removes a category.
///
/// Relies on rusqlite's `Connection::execute` over a single `DELETE`
/// and SQLite's cascading foreign keys, which the bundled build enables
/// by default: the category row goes away together with every link
/// that names it, while transactions stay.
#[verifier::external_body]
pub fn delete_category(db: &mut Connection, id: i64) -> (r: Result<(), ReportError>)
    ensures
        txn_table(*final(db)) == txn_table(*old(db)),
        r is Ok ==> cat_table(*final(db)) == cat_table(*old(db)).remove(id as int) && link_table(
            *final(db),
        ) == link_table(*old(db)).filter(|p: (int, int)| p.1 != id as int),
        r is Err ==> cat_table(*final(db)) == cat_table(*old(db)) && link_table(*final(db))
            == link_table(*old(db)),
{
    db.execute("DELETE FROM categories WHERE id = ?1", [id]).map(|_| ()).map_err(
        |_| ReportError::StoreFailure,
    )
}

/// Removes a transaction.
///
/// Relies on rusqlite's `Connection::execute` over a single `DELETE`
/// and SQLite's cascading foreign keys, which the bundled build enables
/// by default: the transaction row goes away together with every link
/// that names it, while categories stay.
#[verifier::external_body]
pub fn delete_transaction(db: &mut Connection, id: i64) -> (r: Result<(), ReportError>)
    ensures
        cat_table(*final(db)) == cat_table(*old(db)),
        r is Ok ==> txn_table(*final(db)) == txn_table(*old(db)).remove(id as int) && link_table(
            *final(db),
        ) == link_table(*old(db)).filter(|p: (int, int)| p.0 != id as int),
        r is Err ==> txn_table(*final(db)) == txn_table(*old(db)) && link_table(*final(db))
            == link_table(*old(db)),
{
    db.execute("DELETE FROM transactions WHERE id = ?1", [id]).map(|_| ()).map_err(
        |_| ReportError::StoreFailure,
    )
}

/// `s` enumerates the category table in ascending id order.
pub open spec fn is_cat_snapshot(s: Seq<Category>, cats: Map<int, Seq<char>>) -> bool {
    &&& forall|i: int, j: int| 0 <= i < j < s.len() ==> s[i].id < s[j].id
    &&& forall|i: int|
        0 <= i < s.len() ==> cats.contains_key((#[trigger] s[i]).id as int) && cats[s[i].id as int]
            == s[i].label@
    &&& forall|k: int| #[trigger] cats.contains_key(k) ==> exists|i: int| 0 <= i < s.len() && s[i].id == k
}

/// Lists every category.
///
/// Relies on rusqlite's query over `SELECT id, label ... ORDER BY id`:
/// every category row once, in ascending id order.
#[verifier::external_body]
pub fn get_categories(db: &Connection) -> (r: Result<Vec<Category>, ReportError>)
    ensures
        r matches Ok(v) ==> is_cat_snapshot(v@, cat_table(*db)),
        r matches Err(e) ==> e == ReportError::StoreFailure,
{
    let go = || -> rusqlite::Result<Vec<Category>> {
        let mut stmt = db.prepare("SELECT id, label FROM categories ORDER BY id")?;
        let rows = stmt.query_map([], |row| Ok(Category { id: row.get(0)?, label: row.get(1)? }))?;
        rows.collect()
    };
    go().map_err(|_| ReportError::StoreFailure)
}

/// Reads every transaction row.
///
/// Relies on rusqlite's query over `SELECT ... ORDER BY id`: every
/// transaction row once, in ascending id order.
#[verifier::external_body]
pub(crate) fn fetch_txn_rows(db: &Connection) -> (r: Result<Vec<TxnRow>, ReportError>)
    ensures
        r matches Ok(v) ==> is_txn_snapshot(crate::engine::txns_view(v@), txn_table(*db)),
        r matches Err(e) ==> e == ReportError::StoreFailure,
{
    let go = || -> rusqlite::Result<Vec<TxnRow>> {
        let mut stmt = db.prepare("SELECT id, value, date_created FROM transactions ORDER BY id")?;
        let rows = stmt.query_map(
            [],
            |row| Ok(TxnRow { id: row.get(0)?, value: row.get(1)?, date_created: row.get(2)? }),
        )?;
        rows.collect()
    };
    go().map_err(|_| ReportError::StoreFailure)
}

/// Reads every transaction-to-category link, joined with the
/// category's label.
///
/// Relies on rusqlite's query over the join of the link and category
/// tables with `ORDER BY transaction_id, category_id`: every link pair
/// whose category exists, once, in that order.
#[verifier::external_body]
pub fn query_transaction_category_rows(db: &Connection) -> (r: Result<Vec<LinkRow>, ReportError>)
    ensures
        r matches Ok(v) ==> is_link_snapshot(
            crate::engine::links_view(v@),
            link_table(*db),
            cat_table(*db),
        ),
        r matches Err(e) ==> e == ReportError::StoreFailure,
{
    let go = || -> rusqlite::Result<Vec<LinkRow>> {
        let mut stmt = db.prepare(
            "SELECT tc.transaction_id, tc.category_id, c.label FROM transaction_categories tc JOIN categories c ON c.id = tc.category_id ORDER BY tc.transaction_id, tc.category_id",
        )?;
        let rows = stmt.query_map(
            [],
            |row| Ok(
                LinkRow { transaction_id: row.get(0)?, category_id: row.get(1)?, label: row.get(2)? },
            ),
        )?;
        rows.collect()
    };
    go().map_err(|_| ReportError::StoreFailure)
}

/// The links that inserting a transaction `tid` tagged with the
/// categories `cats` adds: one per listed category that exists.
pub open spec fn links_of_insert(tid: int, cats: Seq<i64>, table: Map<int, Seq<char>>) -> Set<
    (int, int),
> {
    Set::new(
        |p: (int, int)|
            p.0 == tid && table.contains_key(p.1) && exists|j: int|
                0 <= j < cats.len() && cats[j] == p.1,
    )
}

/// Stores a transaction and links it to the listed categories; a
/// listed category that does not exist is skipped.  A duplicate in the
/// list fails partway, leaving the links added so far in place, as a
/// duplicate link insert does.
pub fn insert_transaction(
    db: &mut Connection,
    value: i64,
    name: &str,
    description: Option<&str>,
    date_created: &str,
    transaction_categories: Vec<i64>,
) -> (r: Result<(), ReportError>)
    ensures
        cat_table(*final(db)) == cat_table(*old(db)),
        r is Ok ==> exists|tid: int|
            !txn_table(*old(db)).contains_key(tid) && txn_table(*final(db)) == txn_table(
                *old(db),
            ).insert(tid, (value as int, date_created@)) && link_table(*final(db)) == link_table(
                *old(db),
            ).union(links_of_insert(tid, transaction_categories@, cat_table(*old(db)))),
{
    let ghost t0 = txn_table(*db);
    let ghost c0 = cat_table(*db);
    let ghost l0 = link_table(*db);
    let tid = insert_txn_row(db, value, name, description, date_created)?;
    let n = transaction_categories.len();
    let mut i: usize = 0;
    #[verifier::loop_isolation(false)]
    while i < n
        invariant
            i <= n,
            n == transaction_categories@.len(),
            !t0.contains_key(tid as int),
            txn_table(*db) == t0.insert(tid as int, (value as int, date_created@)),
            cat_table(*db) == c0,
            link_table(*db) == l0.union(
                links_of_insert(tid as int, transaction_categories@.take(i as int), c0),
            ),
        decreases n - i,
    {
        let cid = transaction_categories[i];
        let cnt = category_id_count(db, cid)?;
        let ghost pre = transaction_categories@.take(i as int);
        let ghost post = transaction_categories@.take(i as int + 1);
        proof {
            assert(post[i as int] == cid);
            assert forall|j: int| 0 <= j < pre.len() implies post[j] == pre[j] by {}
        }
        if cnt != 0 {
            insert_link_row(db, tid, cid)?;
            proof {
                assert(links_of_insert(tid as int, post, c0) =~= links_of_insert(
                    tid as int,
                    pre,
                    c0,
                ).insert((tid as int, cid as int))) by {
                    assert forall|p: (int, int)|
                        links_of_insert(tid as int, post, c0).contains(p) == links_of_insert(
                            tid as int,
                            pre,
                            c0,
                        ).insert((tid as int, cid as int)).contains(p) by {
                        if links_of_insert(tid as int, post, c0).contains(p) {
                            let j = choose|j: int| 0 <= j < post.len() && post[j] == p.1;
                            if j < i as int {
                                assert(pre[j] == p.1);
                            } else {
                                assert(p.1 == cid as int);
                            }
                        }
                        if links_of_insert(tid as int, pre, c0).contains(p) {
                            let j = choose|j: int| 0 <= j < pre.len() && pre[j] == p.1;
                            assert(post[j] == p.1);
                        }
                        if p == (tid as int, cid as int) {
                            assert(c0.contains_key(cid as int));
                            assert(post[i as int] == p.1);
                        }
                    }
                }
                assert(l0.union(links_of_insert(tid as int, pre, c0)).insert(
                    (tid as int, cid as int),
                ) =~= l0.union(links_of_insert(tid as int, post, c0)));
            }
        } else {
            proof {
                assert(!c0.contains_key(cid as int));
                assert(links_of_insert(tid as int, post, c0) =~= links_of_insert(
                    tid as int,
                    pre,
                    c0,
                )) by {
                    assert forall|p: (int, int)|
                        links_of_insert(tid as int, post, c0).contains(p) == links_of_insert(
                            tid as int,
                            pre,
                            c0,
                        ).contains(p) by {
                        if links_of_insert(tid as int, post, c0).contains(p) {
                            let j = choose|j: int| 0 <= j < post.len() && post[j] == p.1;
                            assert(j < i as int || p.1 == cid as int);
                            if j < i as int {
                                assert(pre[j] == p.1);
                            }
                        }
                        if links_of_insert(tid as int, pre, c0).contains(p) {
                            let j = choose|j: int| 0 <= j < pre.len() && pre[j] == p.1;
                            assert(post[j] == p.1);
                        }
                    }
                }
            }
        }
        i = i + 1;
    }
    proof {
        assert(transaction_categories@.take(n as int) =~= transaction_categories@);
    }
    Ok(())
}

/// Builds the report for the period of `selected_date` at granularity
/// `report_type` over the store's current contents.
///
/// The anchor date is validated first; a malformed one is rejected as
/// invalid input before the store is read.  On success the report is
/// exactly the aggregation, described by [`crate::report::report_ok`],
/// of the snapshot that the two reads returned.
pub fn get_basic_report(db: &Connection, report_type: ReportType, selected_date: &str) -> (r:
    Result<BasicReport, ReportError>)
    ensures
        r is Ok ==> crate::report::report_input_ok(selected_date@, report_type),
        !crate::report::report_input_ok(selected_date@, report_type) ==> (r matches Err(e) && e
            == ReportError::InvalidInput),
        crate::report::report_input_ok(selected_date@, report_type) ==> (r is Ok || (r matches Err(
            e,
        ) && e == ReportError::StoreFailure)),
        r matches Ok(rep) ==> exists|rows_s: Seq<TxnRowV>, links_s: Seq<LinkRowV>|
            is_txn_snapshot(rows_s, txn_table(*db)) && is_link_snapshot(
                links_s,
                link_table(*db),
                cat_table(*db),
            ) && crate::report::report_ok(rep, rows_s, links_s, selected_date@, report_type),
{
    match crate::period::date_selector(selected_date, report_type) {
        Err(e) => {
            return Err(e);
        },
        Ok(_) => {},
    }
    if matches!(report_type, ReportType::MONTH) && !crate::period::month_fields_check(
        selected_date,
    ) {
        return Err(ReportError::InvalidInput);
    }
    let rows = fetch_txn_rows(db)?;
    let links = query_transaction_category_rows(db)?;
    match crate::report::build_report(&rows, &links, report_type, selected_date) {
        Ok(rep) => {
            proof {
                let rows_s = crate::engine::txns_view(rows@);
                let links_s = crate::engine::links_view(links@);
                assert(is_txn_snapshot(rows_s, txn_table(*db)) && is_link_snapshot(
                    links_s,
                    link_table(*db),
                    cat_table(*db),
                ) && crate::report::report_ok(rep, rows_s, links_s, selected_date@, report_type));
            }
            Ok(rep)
        },
        Err(_) => {
            proof {
                assert(false);
            }
            Err(ReportError::StoreFailure)
        },
    }
}

/// A transaction table has exactly one ascending-id enumeration.
pub proof fn lemma_txn_snapshot_unique(
    s1: Seq<TxnRowV>,
    s2: Seq<TxnRowV>,
    m: Map<int, (int, Seq<char>)>,
)
    requires
        is_txn_snapshot(s1, m),
        is_txn_snapshot(s2, m),
    ensures
        s1 == s2,
    decreases s1.len(),
{
    if s1.len() == 0 {
        if s2.len() > 0 {
            assert(m.contains_key(s2[0].id));
            assert(false);
        }
        assert(s1 =~= s2);
    } else if s2.len() == 0 {
        assert(m.contains_key(s1[0].id));
        assert(false);
    } else {
        let a = s1[s1.len() - 1];
        let b = s2[s2.len() - 1];
        assert(a.id <= b.id) by {
            assert(m.contains_key(a.id));
            let j = choose|j: int| 0 <= j < s2.len() && s2[j].id == a.id;
            if j < s2.len() - 1 {
                assert(s2[j].id < b.id);
            }
        }
        assert(b.id <= a.id) by {
            assert(m.contains_key(b.id));
            let j = choose|j: int| 0 <= j < s1.len() && s1[j].id == b.id;
            if j < s1.len() - 1 {
                assert(s1[j].id < a.id);
            }
        }
        assert(a == b);
        let m2 = m.remove(a.id);
        assert(is_txn_snapshot(s1.drop_last(), m2)) by {
            assert forall|i: int| 0 <= i < s1.drop_last().len() implies m2.contains_key(
                (#[trigger] s1.drop_last()[i]).id,
            ) && m2[s1.drop_last()[i].id] == (s1.drop_last()[i].value, s1.drop_last()[i].date) by {
                assert(s1.drop_last()[i] == s1[i]);
                assert(s1[i].id < a.id);
            }
            assert forall|k: int| #[trigger] m2.contains_key(k) implies exists|i: int|
                0 <= i < s1.drop_last().len() && s1.drop_last()[i].id == k by {
                assert(m.contains_key(k));
                let i = choose|i: int| 0 <= i < s1.len() && s1[i].id == k;
                assert(i < s1.len() - 1);
                assert(s1.drop_last()[i] == s1[i]);
            }
        }
        assert(is_txn_snapshot(s2.drop_last(), m2)) by {
            assert forall|i: int| 0 <= i < s2.drop_last().len() implies m2.contains_key(
                (#[trigger] s2.drop_last()[i]).id,
            ) && m2[s2.drop_last()[i].id] == (s2.drop_last()[i].value, s2.drop_last()[i].date) by {
                assert(s2.drop_last()[i] == s2[i]);
                assert(s2[i].id < b.id);
            }
            assert forall|k: int| #[trigger] m2.contains_key(k) implies exists|i: int|
                0 <= i < s2.drop_last().len() && s2.drop_last()[i].id == k by {
                assert(m.contains_key(k));
                let i = choose|i: int| 0 <= i < s2.len() && s2[i].id == k;
                assert(i < s2.len() - 1);
                assert(s2.drop_last()[i] == s2[i]);
            }
        }
        lemma_txn_snapshot_unique(s1.drop_last(), s2.drop_last(), m2);
        assert(s1 =~= s2) by {
            assert(s1.len() == s2.len());
            assert forall|i: int| 0 <= i < s1.len() implies s1[i] == s2[i] by {
                if i < s1.len() - 1 {
                    assert(s1.drop_last()[i] == s2.drop_last()[i]);
                }
            }
        }
    }
}

/// A link table joined with its categories has exactly one enumeration
/// in (transaction id, category id) order.
pub proof fn lemma_link_snapshot_unique(
    s1: Seq<LinkRowV>,
    s2: Seq<LinkRowV>,
    links: Set<(int, int)>,
    cats: Map<int, Seq<char>>,
)
    requires
        is_link_snapshot(s1, links, cats),
        is_link_snapshot(s2, links, cats),
    ensures
        s1 == s2,
    decreases s1.len(),
{
    if s1.len() == 0 {
        if s2.len() > 0 {
            assert(links.contains((s2[0].tid, s2[0].cid)) && cats.contains_key(s2[0].cid));
            assert(false);
        }
        assert(s1 =~= s2);
    } else if s2.len() == 0 {
        assert(links.contains((s1[0].tid, s1[0].cid)) && cats.contains_key(s1[0].cid));
        assert(false);
    } else {
        let a = s1[s1.len() - 1];
        let b = s2[s2.len() - 1];
        assert(!link_lt(b, a)) by {
            assert(links.contains((a.tid, a.cid)) && cats.contains_key(a.cid));
            let j = choose|j: int|
                0 <= j < s2.len() && (#[trigger] s2[j]).tid == a.tid && s2[j].cid == a.cid;
            if j < s2.len() - 1 {
                assert(link_lt(s2[j], b));
            }
        }
        assert(!link_lt(a, b)) by {
            assert(links.contains((b.tid, b.cid)) && cats.contains_key(b.cid));
            let j = choose|j: int|
                0 <= j < s1.len() && (#[trigger] s1[j]).tid == b.tid && s1[j].cid == b.cid;
            if j < s1.len() - 1 {
                assert(link_lt(s1[j], a));
            }
        }
        assert(a.tid == b.tid && a.cid == b.cid);
        assert(a.label == cats[a.cid] && b.label == cats[b.cid]);
        assert(a == b);
        let l2 = links.remove((a.tid, a.cid));
        assert(is_link_snapshot(s1.drop_last(), l2, cats)) by {
            assert forall|i: int| 0 <= i < s1.drop_last().len() implies l2.contains(
                ((#[trigger] s1.drop_last()[i]).tid, s1.drop_last()[i].cid),
            ) && cats.contains_key(s1.drop_last()[i].cid) && cats[s1.drop_last()[i].cid]
                == s1.drop_last()[i].label by {
                assert(s1.drop_last()[i] == s1[i]);
                assert(link_lt(s1[i], a));
            }
            assert forall|p: (int, int)|
                #[trigger] l2.contains(p) && cats.contains_key(p.1) implies exists|i: int|
                0 <= i < s1.drop_last().len() && (#[trigger] s1.drop_last()[i]).tid == p.0
                    && s1.drop_last()[i].cid == p.1 by {
                assert(links.contains(p));
                let i = choose|i: int|
                    0 <= i < s1.len() && (#[trigger] s1[i]).tid == p.0 && s1[i].cid == p.1;
                assert(i < s1.len() - 1);
                assert(s1.drop_last()[i] == s1[i]);
            }
        }
        assert(is_link_snapshot(s2.drop_last(), l2, cats)) by {
            assert forall|i: int| 0 <= i < s2.drop_last().len() implies l2.contains(
                ((#[trigger] s2.drop_last()[i]).tid, s2.drop_last()[i].cid),
            ) && cats.contains_key(s2.drop_last()[i].cid) && cats[s2.drop_last()[i].cid]
                == s2.drop_last()[i].label by {
                assert(s2.drop_last()[i] == s2[i]);
                assert(link_lt(s2[i], b));
            }
            assert forall|p: (int, int)|
                #[trigger] l2.contains(p) && cats.contains_key(p.1) implies exists|i: int|
                0 <= i < s2.drop_last().len() && (#[trigger] s2.drop_last()[i]).tid == p.0
                    && s2.drop_last()[i].cid == p.1 by {
                assert(links.contains(p));
                let i = choose|i: int|
                    0 <= i < s2.len() && (#[trigger] s2[i]).tid == p.0 && s2[i].cid == p.1;
                assert(i < s2.len() - 1);
                assert(s2.drop_last()[i] == s2[i]);
            }
        }
        lemma_link_snapshot_unique(s1.drop_last(), s2.drop_last(), l2, cats);
        assert(s1 =~= s2) by {
            assert(s1.len() == s2.len());
            assert forall|i: int| 0 <= i < s1.len() implies s1[i] == s2[i] by {
                if i < s1.len() - 1 {
                    assert(s1.drop_last()[i] == s2.drop_last()[i]);
                }
            }
        }
    }
}

/// Idempotence: two reports built from the same store contents with
/// the same granularity and anchor date have identical totals and maps
/// — the aggregation is a function of the store's tables alone.
pub proof fn lemma_report_idempotent(
    rep1: BasicReport,
    rep2: BasicReport,
    t: Map<int, (int, Seq<char>)>,
    l: Set<(int, int)>,
    c: Map<int, Seq<char>>,
    sel: Seq<char>,
    rt: ReportType,
)
    requires
        exists|rows_s: Seq<TxnRowV>, links_s: Seq<LinkRowV>|
            is_txn_snapshot(rows_s, t) && is_link_snapshot(links_s, l, c)
                && crate::report::report_ok(rep1, rows_s, links_s, sel, rt),
        exists|rows_s: Seq<TxnRowV>, links_s: Seq<LinkRowV>|
            is_txn_snapshot(rows_s, t) && is_link_snapshot(links_s, l, c)
                && crate::report::report_ok(rep2, rows_s, links_s, sel, rt),
    ensures
        crate::report::report_view(rep1) == crate::report::report_view(rep2),
{
    let (rows1, links1) = choose|rows_s: Seq<TxnRowV>, links_s: Seq<LinkRowV>|
        is_txn_snapshot(rows_s, t) && is_link_snapshot(links_s, l, c)
            && crate::report::report_ok(rep1, rows_s, links_s, sel, rt);
    let (rows2, links2) = choose|rows_s: Seq<TxnRowV>, links_s: Seq<LinkRowV>|
        is_txn_snapshot(rows_s, t) && is_link_snapshot(links_s, l, c)
            && crate::report::report_ok(rep2, rows_s, links_s, sel, rt);
    lemma_txn_snapshot_unique(rows1, rows2, t);
    lemma_link_snapshot_unique(links1, links2, l, c);
    crate::report::lemma_report_deterministic(rep1, rep2, rows1, links1, sel, rt);
}

} // verus!
