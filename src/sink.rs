//! Statements for the warehouse: idempotent provisioning, bulk insert and the
//! query for the latest adjustment factor of each code.

use vstd::prelude::*;
use crate::text::push_char;

verus! {

/// `database.table` split before its first dot: the database name and the
/// rest, which starts with the dot.
pub open spec fn database_table_spec(table: Seq<char>, db: Seq<char>, rest: Seq<char>) -> bool {
    &&& db + rest == table
    &&& rest.len() > 0
    &&& rest[0] == '.'
    &&& !db.contains('.')
}

pub fn database_table(table: &str) -> (r: Option<(String, String)>)
    ensures
        r.is_some() == table@.contains('.'),
        r.is_some() ==> database_table_spec(table@, r.unwrap().0@, r.unwrap().1@),
{
    let n = table.unicode_len();
    let mut db = String::new();
    let mut i: usize = 0;
    while i < n && table.get_char(i) != '.'
        invariant
            n == table@.len(),
            i <= n,
            db@ == table@.subrange(0, i as int),
            forall|k: int| 0 <= k < i ==> table@[k] != '.',
        decreases n - i,
    {
        push_char(&mut db, table.get_char(i));
        i = i + 1;
        assert(db@ =~= table@.subrange(0, i as int));
    }
    if i == n {
        assert(!table@.contains('.'));
        return None;
    }
    let mut rest = String::new();
    let mut j: usize = i;
    while j < n
        invariant
            n == table@.len(),
            i <= j <= n,
            rest@ == table@.subrange(i as int, j as int),
        decreases n - j,
    {
        push_char(&mut rest, table.get_char(j));
        j = j + 1;
        assert(rest@ =~= table@.subrange(i as int, j as int));
    }
    assert(db@ + rest@ =~= table@);
    assert(table@[i as int] == '.');
    Some((db, rest))
}

/// The columns of the bar table, and its deduplicating engine.
pub const BARS_SCHEMA: &'static str = "
(
    `date` Date CODEC(DoubleDelta),
    `code` FixedString(6),
    `open` Float32,
    `high` Float32,
    `low` Float32,
    `close` Float32,
    `amount` Float64,
    `vol` Float64
)
ENGINE = ReplacingMergeTree()
ORDER BY (date, code)";

/// The columns of the adjusted bar table, which adds `preclose` and `factor`.
pub const ADJUSTED_BARS_SCHEMA: &'static str = "
(
    `date` Date CODEC(DoubleDelta),
    `code` FixedString(6),
    `open` Float32,
    `high` Float32,
    `low` Float32,
    `close` Float32,
    `amount` Float64,
    `vol` Float64,
    `preclose` Float64,
    `factor` Float64
)
ENGINE = ReplacingMergeTree()
ORDER BY (date, code)";

/// The columns of the corporate-action table.
pub const GBBQ_SCHEMA: &'static str = "
(
    `market` String,
    `code` FixedString(6),
    `date` Date,
    `category` UInt8,
    `category_name` String,
    `fh_qltp` Float32,
    `pgj_qzgb` Float32,
    `sg_hltp` Float32,
    `pg_hzgb` Float32
)
ENGINE = ReplacingMergeTree()
ORDER BY (date, code, category)";

pub open spec fn create_database_spec(db: Seq<char>) -> Seq<char> {
    "CREATE DATABASE IF NOT EXISTS "@ + db
}

pub open spec fn create_table_spec(table: Seq<char>, schema: Seq<char>) -> Seq<char> {
    "CREATE TABLE IF NOT EXISTS "@ + table + schema
}

/// The schema of the bar table, with or without the adjustment columns.
pub open spec fn bars_schema(fq: bool) -> Seq<char> {
    if fq { ADJUSTED_BARS_SCHEMA@ } else { BARS_SCHEMA@ }
}

/// The statement that creates the database of `table` unless it exists.
pub fn create_database_statement(table: &str) -> (r: Option<String>)
    ensures
        r.is_some() == table@.contains('.'),
        r.is_some() ==> r.unwrap()@ == create_database_spec(split_db(table@).0),
{
    match database_table(table) {
        None => None,
        Some((db, rest)) => {
            let mut s = String::from_str("CREATE DATABASE IF NOT EXISTS ");
            s.append(db.as_str());
            proof {
                assert(database_table_spec(table@, db@, rest@));
                let (d, rr) = split_db(table@);
                lemma_database_table_unique(table@, db@, rest@, d, rr);
            }
            Some(s)
        },
    }
}

fn create_table_with(table: &str, schema: &str) -> (r: String)
    ensures
        r@ == create_table_spec(table@, schema@),
{
    let mut s = String::from_str("CREATE TABLE IF NOT EXISTS ");
    s.append(table);
    s.append(schema);
    s
}

/// The statement that creates the bar table unless it exists.
pub fn create_table_statement(fq: bool, table: &str) -> (r: String)
    ensures
        r@ == create_table_spec(table@, bars_schema(fq)),
{
    if fq {
        create_table_with(table, ADJUSTED_BARS_SCHEMA)
    } else {
        create_table_with(table, BARS_SCHEMA)
    }
}

/// The statement that creates the corporate-action table unless it exists.
pub fn create_gbbq_table_statement(table: &str) -> (r: String)
    ensures
        r@ == create_table_spec(table@, GBBQ_SCHEMA@),
{
    create_table_with(table, GBBQ_SCHEMA)
}

/// The parts of a dotted `database.table` name.
pub open spec fn split_db(table: Seq<char>) -> (Seq<char>, Seq<char>) {
    choose|db: Seq<char>, rest: Seq<char>| #[trigger] database_table_spec(table, db, rest)
}

/// The provisioning statements for a target `database.table` and a schema:
/// the database, then the table, each created only where absent.
pub open spec fn provisioning_spec(table: Seq<char>, schema: Seq<char>) -> Option<Seq<Seq<char>>> {
    if table.contains('.') {
        Some(seq![create_database_spec(split_db(table).0), create_table_spec(table, schema)])
    } else {
        None
    }
}

proof fn lemma_database_table_unique(
    table: Seq<char>,
    db1: Seq<char>,
    rest1: Seq<char>,
    db2: Seq<char>,
    rest2: Seq<char>,
)
    requires
        database_table_spec(table, db1, rest1),
        database_table_spec(table, db2, rest2),
    ensures
        db1 == db2,
{
    if db1.len() < db2.len() {
        assert(db2[db1.len() as int] == table[db1.len() as int]);
        assert(table[db1.len() as int] == rest1[0]);
        assert(db2.contains('.'));
    } else if db2.len() < db1.len() {
        assert(db1[db2.len() as int] == table[db2.len() as int]);
        assert(table[db2.len() as int] == rest2[0]);
        assert(db1.contains('.'));
    }
    assert forall|k: int| 0 <= k < db1.len() implies db1[k] == db2[k] by {
        assert(db1[k] == table[k]);
        assert(db2[k] == table[k]);
    }
    assert(db1 =~= db2);
}

/// The provisioning statements for `table`: `None` where it has no dot.
pub fn provisioning_statements(table: &str, schema: &str) -> (r: Option<Vec<String>>)
    ensures
        r.is_some() == provisioning_spec(table@, schema@).is_some(),
        r.is_some() ==> r.unwrap()@.map_values(|s: String| s@) == provisioning_spec(
            table@,
            schema@,
        ).unwrap(),
{
    match database_table(table) {
        None => None,
        Some((db, rest)) => {
            let mut s = String::from_str("CREATE DATABASE IF NOT EXISTS ");
            s.append(db.as_str());
            let t = create_table_with(table, schema);
            proof {
                assert(database_table_spec(table@, db@, rest@));
                let (d, rr) = split_db(table@);
                lemma_database_table_unique(table@, db@, rest@, d, rr);
            }
            let mut v: Vec<String> = Vec::new();
            v.push(s);
            v.push(t);
            assert(v@.map_values(|s: String| s@) =~= provisioning_spec(table@, schema@).unwrap());
            Some(v)
        },
    }
}

proof fn lemma_database_table_exists(table: Seq<char>)
    requires
        table.contains('.'),
    ensures
        exists|db: Seq<char>, rest: Seq<char>| #[trigger] database_table_spec(table, db, rest),
    decreases table.len(),
{
    if table[0] == '.' {
        assert(Seq::<char>::empty() + table =~= table);
        assert(database_table_spec(table, Seq::<char>::empty(), table));
    } else {
        let t = table.drop_first();
        let i = choose|i: int| 0 <= i < table.len() && table[i] == '.';
        assert(t[i - 1] == '.');
        lemma_database_table_exists(t);
        let (db, rest) = choose|db: Seq<char>, rest: Seq<char>| #[trigger] database_table_spec(t, db, rest);
        let db2 = seq![table[0]] + db;
        assert(db + rest == t);
        assert(seq![table[0]] + t =~= table);
        assert(db2 + rest =~= seq![table[0]] + (db + rest));
        assert forall|k: int| 0 <= k < db2.len() implies db2[k] != '.' by {
            if k > 0 {
                assert(db2[k] == db[k - 1]);
            }
        }
        assert(database_table_spec(table, db2, rest));
    }
}

/// Provisioning may run any number of times against one target: it always
/// issues the same statements, and each creates its object only if it is
/// absent, so a second run changes no schema.
pub proof fn lemma_provisioning_idempotent(table: Seq<char>, schema: Seq<char>)
    requires
        table.contains('.'),
    ensures
        provisioning_spec(table, schema) is Some,
        ({
            let stmts = provisioning_spec(table, schema).unwrap();
            &&& stmts.len() == 2
            &&& stmts[0].subrange(0, 30) == "CREATE DATABASE IF NOT EXISTS "@
            &&& stmts[1].subrange(0, 27) == "CREATE TABLE IF NOT EXISTS "@
            &&& stmts[1] == create_table_spec(table, schema)
            &&& stmts[0].subrange(30, stmts[0].len() as int) == split_db(table).0
            &&& database_table_spec(table, split_db(table).0, split_db(table).1)
        }),
{
    lemma_database_table_exists(table);
    let d = split_db(table).0;
    let stmts = provisioning_spec(table, schema).unwrap();
    reveal_strlit("CREATE DATABASE IF NOT EXISTS ");
    reveal_strlit("CREATE TABLE IF NOT EXISTS ");
    assert(stmts[0].subrange(0, 30) =~= "CREATE DATABASE IF NOT EXISTS "@);
    assert(stmts[1].subrange(0, 27) =~= "CREATE TABLE IF NOT EXISTS "@);
    assert(stmts[0].subrange(30, stmts[0].len() as int) =~= d);
}

/// The statement that loads a table file with a header row into `table`.
pub fn insert_statement(table: &str) -> (r: String)
    ensures
        r@ == "INSERT INTO "@ + table@ + " FORMAT CSVWithNames"@,
{
    let mut s = String::from_str("INSERT INTO ");
    s.append(table);
    s.append(" FORMAT CSVWithNames");
    s
}

/// The part of the latest-factor query before the table name.
pub const FACTOR_QUERY_HEAD: &'static str = "WITH
  df AS (
  SELECT
    code,
  arrayLast(
      x->true,
      arraySort(x->x.1, groupArray((
        date, close, factor
      )))
    ) AS t
  FROM
    ";

/// The part of the latest-factor query after the table name.
pub const FACTOR_QUERY_TAIL: &'static str = "
  GROUP BY
    code
  )
SELECT code, t.1 AS date, t.2 AS close, t.3 AS factor FROM df
INTO OUTFILE 'factor.csv'
FORMAT CSVWithNames;";

/// The query that writes, for each code of `table`, its chronologically last
/// `(date, close, factor)` to `factor.csv`.
pub fn factor_query(table: &str) -> (r: String)
    ensures
        r@ == FACTOR_QUERY_HEAD@ + table@ + FACTOR_QUERY_TAIL@,
{
    let mut s = String::from_str(FACTOR_QUERY_HEAD);
    s.append(table);
    s.append(FACTOR_QUERY_TAIL);
    s
}

} // verus!
