//! The tables of the ledger: the columns that an older one may lack, and when its events have to
//! be divided by account.
use vstd::prelude::*;

use crate::text;
use crate::text::same_text;

verus! {

/// A column that a table has to have.
#[derive(Clone, Copy, Debug)]
pub struct Column {
    pub table: &'static str,
    pub name: &'static str,
    pub declaration: &'static str,
}

impl View for Column {
    type V = (Seq<char>, Seq<char>, Seq<char>);

    open spec fn view(&self) -> (Seq<char>, Seq<char>, Seq<char>) {
        (self.table@, self.name@, self.declaration@)
    }
}

/// What columns say.
pub open spec fn column_views(columns: Seq<Column>) -> Seq<(Seq<char>, Seq<char>, Seq<char>)> {
    columns.map_values(|column: Column| column@)
}

/// A column.
fn column(table: &'static str, name: &'static str, declaration: &'static str) -> (column: Column)
    ensures
        column@ == (table@, name@, declaration@),
{
    Column { table, name, declaration }
}

/// The columns of the token ledger that came later than its tables, in the order in which they are
/// added.
pub fn ledger_columns() -> (columns: Vec<Column>)
    ensures
        column_views(columns@) == seq![
            ("token_events"@, "service_tier"@, "TEXT"@),
            ("file_checkpoints"@, "service_tier"@, "TEXT"@),
            ("token_events"@, "account_key"@, "TEXT NOT NULL DEFAULT 'legacy-unknown'"@),
            ("token_events"@, "usage_at_ms"@, "INTEGER NOT NULL DEFAULT 0"@),
            ("token_events"@, "reported_at_ms"@, "INTEGER NOT NULL DEFAULT 0"@),
            ("file_checkpoints"@, "pending_usage_at_ms"@, "INTEGER"@),
            ("ingestion_state"@, "timestamp_schema_version"@, "INTEGER NOT NULL DEFAULT 0"@),
            ("pricing_versions"@, "long_context_threshold"@, "INTEGER"@),
            ("pricing_versions"@, "long_context_input_multiplier"@, "REAL NOT NULL DEFAULT 1.0"@),
            ("pricing_versions"@, "long_context_output_multiplier"@, "REAL NOT NULL DEFAULT 1.0"@),
        ],
{
    let columns = vec![
        column("token_events", "service_tier", "TEXT"),
        column("file_checkpoints", "service_tier", "TEXT"),
        column("token_events", "account_key", "TEXT NOT NULL DEFAULT 'legacy-unknown'"),
        column("token_events", "usage_at_ms", "INTEGER NOT NULL DEFAULT 0"),
        column("token_events", "reported_at_ms", "INTEGER NOT NULL DEFAULT 0"),
        column("file_checkpoints", "pending_usage_at_ms", "INTEGER"),
        column("ingestion_state", "timestamp_schema_version", "INTEGER NOT NULL DEFAULT 0"),
        column("pricing_versions", "long_context_threshold", "INTEGER"),
        column("pricing_versions", "long_context_input_multiplier", "REAL NOT NULL DEFAULT 1.0"),
        column("pricing_versions", "long_context_output_multiplier", "REAL NOT NULL DEFAULT 1.0"),
    ];
    assert(column_views(columns@) =~= seq![
        ("token_events"@, "service_tier"@, "TEXT"@),
        ("file_checkpoints"@, "service_tier"@, "TEXT"@),
        ("token_events"@, "account_key"@, "TEXT NOT NULL DEFAULT 'legacy-unknown'"@),
        ("token_events"@, "usage_at_ms"@, "INTEGER NOT NULL DEFAULT 0"@),
        ("token_events"@, "reported_at_ms"@, "INTEGER NOT NULL DEFAULT 0"@),
        ("file_checkpoints"@, "pending_usage_at_ms"@, "INTEGER"@),
        ("ingestion_state"@, "timestamp_schema_version"@, "INTEGER NOT NULL DEFAULT 0"@),
        ("pricing_versions"@, "long_context_threshold"@, "INTEGER"@),
        ("pricing_versions"@, "long_context_input_multiplier"@, "REAL NOT NULL DEFAULT 1.0"@),
        ("pricing_versions"@, "long_context_output_multiplier"@, "REAL NOT NULL DEFAULT 1.0"@),
    ]);
    columns
}

/// The columns of the quota tables that came later than the tables, in the order in which they are
/// added.
pub fn quota_columns() -> (columns: Vec<Column>)
    ensures
        column_views(columns@) == seq![
            ("quota_snapshots"@, "account_key"@, "TEXT NOT NULL DEFAULT 'legacy-unknown'"@),
            ("quota_snapshots"@, "raw_json"@, "TEXT NOT NULL DEFAULT '{}'"@),
            ("quota_snapshots"@, "observation_schema_version"@, "INTEGER NOT NULL DEFAULT 1"@),
            ("quota_snapshots"@, "collector_version"@, "TEXT NOT NULL DEFAULT 'legacy'"@),
            ("quota_collector_state"@, "notifications_total"@, "INTEGER NOT NULL DEFAULT 0"@),
            ("quota_collector_state"@, "last_notification_at_ms"@, "INTEGER"@),
        ],
{
    let columns = vec![
        column("quota_snapshots", "account_key", "TEXT NOT NULL DEFAULT 'legacy-unknown'"),
        column("quota_snapshots", "raw_json", "TEXT NOT NULL DEFAULT '{}'"),
        column("quota_snapshots", "observation_schema_version", "INTEGER NOT NULL DEFAULT 1"),
        column("quota_snapshots", "collector_version", "TEXT NOT NULL DEFAULT 'legacy'"),
        column("quota_collector_state", "notifications_total", "INTEGER NOT NULL DEFAULT 0"),
        column("quota_collector_state", "last_notification_at_ms", "INTEGER"),
    ];
    assert(column_views(columns@) =~= seq![
        ("quota_snapshots"@, "account_key"@, "TEXT NOT NULL DEFAULT 'legacy-unknown'"@),
        ("quota_snapshots"@, "raw_json"@, "TEXT NOT NULL DEFAULT '{}'"@),
        ("quota_snapshots"@, "observation_schema_version"@, "INTEGER NOT NULL DEFAULT 1"@),
        ("quota_snapshots"@, "collector_version"@, "TEXT NOT NULL DEFAULT 'legacy'"@),
        ("quota_collector_state"@, "notifications_total"@, "INTEGER NOT NULL DEFAULT 0"@),
        ("quota_collector_state"@, "last_notification_at_ms"@, "INTEGER"@),
    ]);
    columns
}

/// Whether a column is among those that a table has.
pub fn has_column(columns: &Vec<String>, name: &str) -> (found: bool)
    ensures
        found == text::views(columns@).contains(name@),
{
    let mut i: usize = 0;
    while i < columns.len()
        invariant
            i <= columns@.len(),
            forall|j: int| 0 <= j < i ==> (#[trigger] text::views(columns@)[j]) != name@,
        decreases columns@.len() - i,
    {
        assert(text::views(columns@)[i as int] == columns@[i as int]@);
        if same_text(columns[i].as_str(), name) {
            return true;
        }
        i += 1;
    }
    false
}

/// The statement that adds a column.
pub open spec fn added(column: (Seq<char>, Seq<char>, Seq<char>)) -> Seq<char> {
    "ALTER TABLE "@ + column.0 + " ADD COLUMN "@ + column.1 + " "@ + column.2
}

/// The statement that a table with these columns needs for a column: none where it has the column.
pub open spec fn statement_for(
    existing: Seq<Seq<char>>,
    column: (Seq<char>, Seq<char>, Seq<char>),
) -> Option<Seq<char>> {
    if existing.contains(column.1) {
        None
    } else {
        Some(added(column))
    }
}

/// The statement that adds a column to a table with these columns; nothing where the table has it.
pub fn column_statement(existing: &Vec<String>, column: &Column) -> (statement: Option<String>)
    ensures
        text::opt_view(statement) == if text::views(existing@).contains(column@.1) {
            None
        } else {
            Some(added(column@))
        },
        text::opt_view(statement) == statement_for(text::views(existing@), column@),
{
    if has_column(existing, column.name) {
        return None;
    }
    let mut statement = "ALTER TABLE ".to_owned();
    statement.append(column.table);
    statement.append(" ADD COLUMN ");
    statement.append(column.name);
    statement.append(" ");
    statement.append(column.declaration);
    assert(statement@ =~= added(column@));
    Some(statement)
}

/// An index of a table: whether it is unique, and its columns.
#[derive(Debug)]
pub struct TableIndex {
    pub unique: bool,
    pub columns: Vec<String>,
}

/// Whether an index keeps events apart by account: it is unique and begins with the account.
pub open spec fn divides_accounts(index: TableIndex) -> bool {
    index.unique && index.columns@.len() > 0 && index.columns@[0]@ == "account_key"@
}

/// Whether one of the indexes keeps events apart by account.
pub open spec fn some_divides(indexes: Seq<TableIndex>) -> bool {
    exists|i: int| 0 <= i < indexes.len() && divides_accounts(#[trigger] indexes[i])
}

/// Whether one of the indexes keeps events apart by account. Where none does, the same report in
/// two accounts would be one event, and the table has to be made anew.
pub fn is_divided_by_account(indexes: &Vec<TableIndex>) -> (divided: bool)
    ensures
        divided == exists|i: int| 0 <= i < indexes@.len() && divides_accounts(#[trigger] indexes@[i]),
        divided == some_divides(indexes@),
{
    let mut i: usize = 0;
    while i < indexes.len()
        invariant
            i <= indexes@.len(),
            forall|j: int| 0 <= j < i ==> !divides_accounts(#[trigger] indexes@[j]),
        decreases indexes@.len() - i,
    {
        let index = &indexes[i];
        if index.unique && index.columns.len() > 0 && same_text(
            index.columns[0].as_str(),
            "account_key",
        ) {
            assert(divides_accounts(indexes@[i as int]));
            return true;
        }
        i += 1;
    }
    false
}

/// A column is added exactly where it is missing, whatever other columns there are, and never a second
/// time; the statement begins with the table and ends with the name and the declaration.
pub proof fn a_column_is_added_once(
    existing: Seq<Seq<char>>,
    column: (Seq<char>, Seq<char>, Seq<char>),
    other: Seq<char>,
)
    ensures
        (statement_for(existing, column) is Some) <==> (forall|i: int|
            0 <= i < existing.len() ==> (#[trigger] existing[i]) != column.1),
        statement_for(existing.push(column.1), column) is None,
        other != column.1 ==> statement_for(existing.push(other), column) == statement_for(
            existing,
            column,
        ),
        statement_for(existing, column) matches Some(statement) ==> text::has_prefix(
            statement,
            "ALTER TABLE "@ + column.0,
        ) && text::has_suffix(statement, column.1 + " "@ + column.2),
{
    let grown = existing.push(column.1);
    assert(grown[existing.len() as int] == column.1);
    assert(grown.contains(column.1));
    let more = existing.push(other);
    if existing.contains(column.1) {
        let i = choose|i: int| 0 <= i < existing.len() && existing[i] == column.1;
        assert(existing[i] == column.1);
        assert(more[i] == column.1);
        assert(more.contains(column.1));
    } else if more.contains(column.1) {
        let i = choose|i: int| 0 <= i < more.len() && more[i] == column.1;
        if i < existing.len() {
            assert(existing[i] == column.1);
        }
    }
    let all = added(column);
    let head = "ALTER TABLE "@ + column.0;
    let tail = column.1 + " "@ + column.2;
    assert(all.subrange(0, head.len() as int) =~= head);
    assert(all.subrange(all.len() - tail.len(), all.len() as int) =~= tail);
}

/// Events are kept apart by account exactly where a unique index begins with the account; other
/// indexes add nothing and take nothing away.
pub proof fn a_unique_index_on_the_account_divides(indexes: Seq<TableIndex>, index: TableIndex)
    ensures
        some_divides(indexes.push(index)) <==> some_divides(indexes) || (index.unique
            && index.columns@.len() > 0 && index.columns@[0]@ == "account_key"@),
        !some_divides(Seq::empty()),
{
    let all = indexes.push(index);
    assert(all.last() == index);
    if some_divides(indexes) {
        let i = choose|i: int| 0 <= i < indexes.len() && divides_accounts(#[trigger] indexes[i]);
        assert(all[i] == indexes[i]);
    }
    if divides_accounts(index) {
        assert(divides_accounts(all[indexes.len() as int]));
    }
    if some_divides(all) {
        let i = choose|i: int| 0 <= i < all.len() && divides_accounts(#[trigger] all[i]);
        if i < indexes.len() {
            assert(all[i] == indexes[i]);
        }
    }
}

} // verus!
