//! Schema-versioned migrations for QuestDB.
//!
//! Applied migrations are tracked in a `schema_version` table, one row per
//! version with its name and a hash of its SQL. On startup every embedded
//! migration is compared with the recorded state: a new one is applied and
//! recorded; one whose SQL hash changed is force-recreated (its table or view
//! dropped, its SQL re-run, its record updated); an unchanged one is left
//! alone. With `drop_first`, every target is dropped in reverse version order
//! and `schema_version` cleared before all migrations are applied afresh.

use vstd::prelude::*;
use vstd::std_specs::hash::DefaultHasherAdditionalSpecFns;
use vstd::string::StringSliceAdditionalSpecFns;
use std::collections::hash_map::DefaultHasher;
use std::hash::Hasher;
use crate::text::{int_decimal, push_char, push_i64_decimal, push_radix, push_text, radix_digits, text_chars};

verus! {

/// Creates the `schema_version` table when it does not exist.
pub const SCHEMA_VERSION_DDL: &'static str = "CREATE TABLE IF NOT EXISTS schema_version (version INT, name STRING, sql_hash STRING, applied_on STRING)";

/// Adds the `sql_hash` column to a `schema_version` table created before it
/// existed (fails harmlessly when the column is present).
pub const ADD_SQL_HASH_COLUMN: &'static str = "ALTER TABLE schema_version ADD COLUMN sql_hash STRING";

/// Lists the recorded migrations.
pub const LIST_APPLIED_SQL: &'static str = "SELECT version, name, sql_hash FROM schema_version ORDER BY version ASC";

/// Clears every record of `schema_version`.
pub const CLEAR_SCHEMA_VERSION_SQL: &'static str = "TRUNCATE TABLE schema_version";

/// A single database migration.
#[derive(Debug, Clone, Copy)]
pub struct Migration {
    pub version: i32,
    pub name: &'static str,
    /// The table or view the migration creates.
    pub table_name: &'static str,
    /// Whether the migration creates a view rather than a table.
    pub is_view: bool,
    pub sql: &'static str,
}

/// A migration recorded in `schema_version`.
#[derive(Debug, Clone)]
pub struct AppliedMigration {
    pub version: i32,
    pub name: String,
    pub sql_hash: Option<String>,
}

/// A recorded migration as plain values: version, name and SQL hash.
pub type AppliedRow = (i32, Seq<char>, Option<Seq<char>>);

impl View for AppliedMigration {
    type V = AppliedRow;

    open spec fn view(&self) -> AppliedRow {
        (self.version, self.name@, match self.sql_hash {
            Some(h) => Some(h@),
            None => None,
        })
    }
}

/// The rows of recorded migrations.
pub open spec fn rows_of(applied: Seq<AppliedMigration>) -> Seq<AppliedRow> {
    applied.map_values(|a: AppliedMigration| a@)
}

/// The hash recorded for a migration: the lowercase hexadecimal notation of
/// the `DefaultHasher` digest of its SQL text (hashed as `str::hash` does: the
/// UTF-8 bytes, then a `0xff` byte).
pub open spec fn spec_sql_hash(sql: Seq<char>) -> Seq<char> {
    radix_digits(DefaultHasher::spec_finish(seq![vstd::utf8::encode_utf8(sql), seq![0xffu8]]) as nat, 16)
}

/// Compute a short hexadecimal hash of the migration SQL for change detection.
pub fn sql_hash(sql: &str) -> (h: String)
    ensures
        h@ == spec_sql_hash(sql@),
{
    let mut hasher = DefaultHasher::new();
    let bytes = sql.as_bytes();
    hasher.write(bytes);
    assert(hasher@ =~= seq![sql.spec_bytes()]);
    let terminator: [u8; 1] = [0xffu8];
    let tail = terminator.as_slice();
    assert(tail@ =~= seq![0xffu8]);
    hasher.write(tail);
    assert(hasher@ =~= seq![sql.spec_bytes(), seq![0xffu8]]);
    let digest = hasher.finish();
    let mut h = String::new();
    push_radix(&mut h, digest, 16);
    assert(h@ =~= spec_sql_hash(sql@));
    h
}

/// A text with every `'` doubled, as SQL string literals need.
pub open spec fn escape_quotes(s: Seq<char>) -> Seq<char>
    decreases s.len(),
{
    if s.len() == 0 {
        Seq::empty()
    } else if s.last() == '\'' {
        escape_quotes(s.drop_last()) + seq!['\'', '\'']
    } else {
        escape_quotes(s.drop_last()).push(s.last())
    }
}

fn push_escaped(out: &mut String, s: &str)
    ensures
        final(out)@ == old(out)@ + escape_quotes(s@),
{
    let cs = text_chars(s);
    let ghost start = out@;
    let mut i: usize = 0;
    assert(cs@.take(0) =~= Seq::<char>::empty());
    while i < cs.len()
        invariant
            cs@ == s@,
            i <= cs@.len(),
            out@ == start + escape_quotes(cs@.take(i as int)),
        decreases cs@.len() - i,
    {
        let c = cs[i];
        push_char(out, c);
        if c == '\'' {
            push_char(out, '\'');
        }
        assert(cs@.take(i + 1).drop_last() =~= cs@.take(i as int));
        i = i + 1;
    }
    assert(cs@.take(cs@.len() as int) =~= cs@);
}

/// `DROP VIEW IF EXISTS {target}` for a view, `DROP TABLE IF EXISTS {target}`
/// for a table.
pub open spec fn spec_drop_target_sql(m: Migration) -> Seq<char> {
    if m.is_view {
        "DROP VIEW IF EXISTS "@ + m.table_name@
    } else {
        "DROP TABLE IF EXISTS "@ + m.table_name@
    }
}

/// The statement that drops the table or view a migration creates.
pub fn drop_target_sql(m: &Migration) -> (sql: String)
    ensures
        sql@ == spec_drop_target_sql(*m),
{
    let mut sql = String::new();
    if m.is_view {
        push_text(&mut sql, "DROP VIEW IF EXISTS ");
    } else {
        push_text(&mut sql, "DROP TABLE IF EXISTS ");
    }
    push_text(&mut sql, m.table_name);
    assert(sql@ =~= spec_drop_target_sql(*m));
    sql
}

/// `INSERT INTO schema_version (version, name, sql_hash, applied_on) VALUES
/// ({version}, '{name}', '{hash}', '{applied_on}')`, the name escaped.
pub open spec fn spec_record_version_sql(m: Migration, applied_on: Seq<char>) -> Seq<char> {
    "INSERT INTO schema_version (version, name, sql_hash, applied_on) VALUES ("@ + int_decimal(
        m.version as int,
    ) + ", '"@ + escape_quotes(m.name@) + "', '"@ + spec_sql_hash(m.sql@) + "', '"@ + applied_on
        + "')"@
}

/// The statement that records a newly applied migration.
pub fn record_version_sql(m: &Migration, applied_on: &str) -> (sql: String)
    ensures
        sql@ == spec_record_version_sql(*m, applied_on@),
{
    let hash = sql_hash(m.sql);
    let mut sql = String::new();
    push_text(&mut sql, "INSERT INTO schema_version (version, name, sql_hash, applied_on) VALUES (");
    push_i64_decimal(&mut sql, m.version as i64);
    push_text(&mut sql, ", '");
    push_escaped(&mut sql, m.name);
    push_text(&mut sql, "', '");
    push_text(&mut sql, hash.as_str());
    push_text(&mut sql, "', '");
    push_text(&mut sql, applied_on);
    push_text(&mut sql, "')");
    assert(sql@ =~= spec_record_version_sql(*m, applied_on@));
    sql
}

/// `UPDATE schema_version SET name = '{name}', sql_hash = '{hash}',
/// applied_on = '{applied_on}' WHERE version = {version}`, the name escaped.
pub open spec fn spec_update_version_sql(m: Migration, applied_on: Seq<char>) -> Seq<char> {
    "UPDATE schema_version SET name = '"@ + escape_quotes(m.name@) + "', sql_hash = '"@
        + spec_sql_hash(m.sql@) + "', applied_on = '"@ + applied_on + "' WHERE version = "@
        + int_decimal(m.version as int)
}

/// The statement that updates the record of a force-recreated migration.
pub fn update_version_sql(m: &Migration, applied_on: &str) -> (sql: String)
    ensures
        sql@ == spec_update_version_sql(*m, applied_on@),
{
    let hash = sql_hash(m.sql);
    let mut sql = String::new();
    push_text(&mut sql, "UPDATE schema_version SET name = '");
    push_escaped(&mut sql, m.name);
    push_text(&mut sql, "', sql_hash = '");
    push_text(&mut sql, hash.as_str());
    push_text(&mut sql, "', applied_on = '");
    push_text(&mut sql, applied_on);
    push_text(&mut sql, "' WHERE version = ");
    push_i64_decimal(&mut sql, m.version as i64);
    assert(sql@ =~= spec_update_version_sql(*m, applied_on@));
    sql
}

/// A cell of the `schema_version` listing, as the query returns it.
#[derive(Debug, Clone)]
pub enum CellValue {
    /// An `INT` value.
    Int(i32),
    /// A `STRING`/`VARCHAR` or `SYMBOL` value, `None` when null.
    Text(Option<String>),
    /// A value of any other column type.
    Other,
}

/// The recorded row read from the `version`, `name` and `sql_hash` cells of
/// one row of the listing. A version that is not an `INT` reads as 0, a name
/// that is null or not text as the empty string, a hash that is not text as
/// absent.
pub open spec fn cells_row(version: CellValue, name: CellValue, sql_hash: CellValue) -> AppliedRow {
    (
        match version {
            CellValue::Int(v) => v,
            _ => 0,
        },
        match name {
            CellValue::Text(Some(n)) => n@,
            _ => Seq::<char>::empty(),
        },
        match sql_hash {
            CellValue::Text(Some(h)) => Some(h@),
            _ => None,
        },
    )
}

/// Decode one `schema_version` row from its `version`, `name` and `sql_hash`
/// cells. See [`cells_row`].
pub fn decode_applied_row(version: &CellValue, name: &CellValue, sql_hash: &CellValue) -> (row:
    AppliedMigration)
    ensures
        row@ == cells_row(*version, *name, *sql_hash),
{
    let version = match version {
        CellValue::Int(v) => *v,
        _ => 0,
    };
    let name = match name {
        CellValue::Text(Some(n)) => n.clone(),
        _ => String::new(),
    };
    let sql_hash = match sql_hash {
        CellValue::Text(Some(h)) => Some(h.clone()),
        _ => None,
    };
    AppliedMigration { version, name, sql_hash }
}

/// Decode every row of one result batch of the listing, given its three
/// columns cell by cell: one recorded migration per row, in row order.
pub fn decode_applied_batch(versions: &Vec<CellValue>, names: &Vec<CellValue>, hashes: &Vec<CellValue>) -> (rows: Vec<AppliedMigration>)
    requires
        names@.len() == versions@.len(),
        hashes@.len() == versions@.len(),
    ensures
        rows@.len() == versions@.len(),
        forall|r: int| 0 <= r < rows@.len() ==> #[trigger] rows@[r]@ == cells_row(versions@[r], names@[r], hashes@[r]),
{
    let mut rows: Vec<AppliedMigration> = Vec::new();
    let mut r: usize = 0;
    while r < versions.len()
        invariant
            r <= versions@.len(),
            names@.len() == versions@.len(),
            hashes@.len() == versions@.len(),
            rows@.len() == r,
            forall|q: int| 0 <= q < r ==> #[trigger] rows@[q]@ == cells_row(versions@[q], names@[q], hashes@[q]),
        decreases versions@.len() - r,
    {
        let row = decode_applied_row(&versions[r], &names[r], &hashes[r]);
        rows.push(row);
        r = r + 1;
    }
    rows
}

/// One step of a migration run, referring to migrations by their index.
#[derive(Debug, Clone)]
pub enum MigrationStep {
    /// Run [`drop_target_sql`] for the migration; abort the run on failure.
    DropTarget(usize),
    /// Run [`CLEAR_SCHEMA_VERSION_SQL`]; abort the run on failure.
    ClearVersions,
    /// Run the migration's SQL; abort the run on failure.
    Apply(usize),
    /// Run [`record_version_sql`] for the migration; abort on failure.
    Record(usize),
    /// Run [`update_version_sql`] for the migration; abort on failure.
    Update(usize),
    /// Warn that the recorded name of an unchanged migration differs.
    WarnNameDivergence { migration: usize, recorded_name: String },
    /// Warn that the migration's SQL changed and its target is recreated.
    WarnSqlChanged(usize),
    /// Report that the migration is being applied.
    InfoApplying(usize),
    /// Report that the migration was applied.
    InfoApplied(usize),
    /// Report that the migration was force-recreated.
    InfoRecreated(usize),
}

/// A migration step as plain values (the recorded name by its characters).
pub enum StepView {
    DropTarget(int),
    ClearVersions,
    Apply(int),
    Record(int),
    Update(int),
    WarnNameDivergence(int, Seq<char>),
    WarnSqlChanged(int),
    InfoApplying(int),
    InfoApplied(int),
    InfoRecreated(int),
}

impl View for MigrationStep {
    type V = StepView;

    open spec fn view(&self) -> StepView {
        match self {
            MigrationStep::DropTarget(i) => StepView::DropTarget(*i as int),
            MigrationStep::ClearVersions => StepView::ClearVersions,
            MigrationStep::Apply(i) => StepView::Apply(*i as int),
            MigrationStep::Record(i) => StepView::Record(*i as int),
            MigrationStep::Update(i) => StepView::Update(*i as int),
            MigrationStep::WarnNameDivergence { migration, recorded_name } => StepView::WarnNameDivergence(
                *migration as int,
                recorded_name@,
            ),
            MigrationStep::WarnSqlChanged(i) => StepView::WarnSqlChanged(*i as int),
            MigrationStep::InfoApplying(i) => StepView::InfoApplying(*i as int),
            MigrationStep::InfoApplied(i) => StepView::InfoApplied(*i as int),
            MigrationStep::InfoRecreated(i) => StepView::InfoRecreated(*i as int),
        }
    }
}

/// The steps as plain values.
pub open spec fn step_views(steps: Seq<MigrationStep>) -> Seq<StepView> {
    steps.map_values(|s: MigrationStep| s@)
}

/// The last recorded row of a version (recorded rows are looked up by
/// version, a later row replacing an earlier one).
pub open spec fn last_row(rows: Seq<AppliedRow>, version: i32) -> Option<AppliedRow>
    decreases rows.len(),
{
    if rows.len() == 0 {
        None
    } else if rows.last().0 == version {
        Some(rows.last())
    } else {
        last_row(rows.drop_last(), version)
    }
}

/// The steps for migration `i` given the recorded rows: nothing when its
/// recorded hash matches (a warning when the recorded name differs); a
/// force-recreate when the hash differs or is missing; apply and record when
/// it has no record.
pub open spec fn migration_steps(ms: Seq<Migration>, i: int, rows: Seq<AppliedRow>) -> Seq<StepView> {
    match last_row(rows, ms[i].version) {
        Some(row) => if row.2 == Some(spec_sql_hash(ms[i].sql@)) {
            if row.1 != ms[i].name@ {
                seq![StepView::WarnNameDivergence(i, row.1)]
            } else {
                Seq::empty()
            }
        } else {
            seq![
                StepView::WarnSqlChanged(i),
                StepView::DropTarget(i),
                StepView::Apply(i),
                StepView::Update(i),
                StepView::InfoRecreated(i),
            ]
        },
        None => seq![
            StepView::InfoApplying(i),
            StepView::Apply(i),
            StepView::Record(i),
            StepView::InfoApplied(i),
        ],
    }
}

/// The steps for the first `k` migrations, in order.
pub open spec fn steps_upto(ms: Seq<Migration>, rows: Seq<AppliedRow>, k: int) -> Seq<StepView>
    decreases k,
{
    if k <= 0 {
        Seq::empty()
    } else {
        steps_upto(ms, rows, k - 1) + migration_steps(ms, k - 1, rows)
    }
}

/// The drops of the drop-first phase for the first `k` migrations, in reverse
/// order (migration `k - 1` first).
pub open spec fn drops_upto(k: int) -> Seq<StepView>
    decreases k,
{
    if k <= 0 {
        Seq::empty()
    } else {
        seq![StepView::DropTarget(k - 1)] + drops_upto(k - 1)
    }
}

/// The whole run: with `drop_first`, drop every target in reverse order,
/// clear `schema_version` and apply every migration as new; otherwise the
/// steps of each migration against the recorded rows.
pub open spec fn spec_plan(ms: Seq<Migration>, rows: Seq<AppliedRow>, drop_first: bool) -> Seq<StepView> {
    if drop_first {
        drops_upto(ms.len() as int) + seq![StepView::ClearVersions] + steps_upto(
            ms,
            Seq::empty(),
            ms.len() as int,
        )
    } else {
        steps_upto(ms, rows, ms.len() as int)
    }
}

fn find_last_applied(applied: &Vec<AppliedMigration>, version: i32) -> (r: Option<usize>)
    ensures
        r matches Some(a) ==> a < applied@.len() && last_row(rows_of(applied@), version) == Some(
            applied@[a as int]@,
        ),
        r is None ==> last_row(rows_of(applied@), version) is None,
{
    let mut k = applied.len();
    assert(applied@.take(k as int) =~= applied@);
    while k > 0
        invariant
            k <= applied@.len(),
            last_row(rows_of(applied@), version) == last_row(rows_of(applied@.take(k as int)), version),
        decreases k,
    {
        assert(rows_of(applied@.take(k as int)).drop_last() =~= rows_of(applied@.take(k - 1)));
        if applied[k - 1].version == version {
            return Some(k - 1);
        }
        k = k - 1;
    }
    None
}

fn push_migration_steps(
    steps: &mut Vec<MigrationStep>,
    ms: &Vec<Migration>,
    i: usize,
    applied: &Vec<AppliedMigration>,
)
    requires
        i < ms@.len(),
    ensures
        step_views(final(steps)@) == step_views(old(steps)@) + migration_steps(ms@, i as int, rows_of(applied@)),
{
    let m = ms[i];
    let ghost start = old(steps)@;
    match find_last_applied(applied, m.version) {
        Some(a) => {
            let hash = sql_hash(m.sql);
            let matches = match &applied[a].sql_hash {
                Some(h) => *h == hash,
                None => false,
            };
            if matches {
                let embedded = m.name.to_owned();
                if applied[a].name != embedded {
                    steps.push(
                        MigrationStep::WarnNameDivergence {
                            migration: i,
                            recorded_name: applied[a].name.clone(),
                        },
                    );
                }
            } else {
                steps.push(MigrationStep::WarnSqlChanged(i));
                steps.push(MigrationStep::DropTarget(i));
                steps.push(MigrationStep::Apply(i));
                steps.push(MigrationStep::Update(i));
                steps.push(MigrationStep::InfoRecreated(i));
            }
        },
        None => {
            steps.push(MigrationStep::InfoApplying(i));
            steps.push(MigrationStep::Apply(i));
            steps.push(MigrationStep::Record(i));
            steps.push(MigrationStep::InfoApplied(i));
        },
    }
    assert(step_views(steps@) =~= step_views(start) + migration_steps(ms@, i as int, rows_of(applied@)));
}

/// Plan a migration run over the embedded `migrations` and the recorded
/// `applied` rows (listed once, before the run). See [`spec_plan`].
pub fn plan_migrations(migrations: &Vec<Migration>, applied: &Vec<AppliedMigration>, drop_first: bool) -> (steps: Vec<MigrationStep>)
    ensures
        step_views(steps@) == spec_plan(migrations@, rows_of(applied@), drop_first),
        forall|k: int| 0 <= k < steps@.len() ==> step_in_range(migrations@.len() as int, #[trigger] steps@[k]@),
{
    let mut steps: Vec<MigrationStep> = Vec::new();
    let none: Vec<AppliedMigration> = Vec::new();
    let rows = if drop_first {
        let mut k = migrations.len();
        while k > 0
            invariant
                k <= migrations@.len(),
                step_views(steps@) + drops_upto(k as int) == drops_upto(migrations@.len() as int),
            decreases k,
        {
            steps.push(MigrationStep::DropTarget(k - 1));
            assert(step_views(steps@) + drops_upto(k - 1) =~= drops_upto(migrations@.len() as int));
            k = k - 1;
        }
        steps.push(MigrationStep::ClearVersions);
        &none
    } else {
        applied
    };
    let ghost prefix = step_views(steps@);
    let mut i: usize = 0;
    while i < migrations.len()
        invariant
            i <= migrations@.len(),
            step_views(steps@) == prefix + steps_upto(migrations@, rows_of(rows@), i as int),
        decreases migrations@.len() - i,
    {
        push_migration_steps(&mut steps, migrations, i, rows);
        i = i + 1;
    }
    assert(rows_of(none@) =~= Seq::<AppliedRow>::empty());
    assert(step_views(steps@) =~= spec_plan(migrations@, rows_of(applied@), drop_first));
    proof {
        lemma_plan_in_range(migrations@, rows_of(applied@), drop_first);
        assert forall|k: int| 0 <= k < steps@.len() implies step_in_range(
            migrations@.len() as int,
            #[trigger] steps@[k]@,
        ) by {
            assert(step_views(steps@)[k] == steps@[k]@);
        }
    }
    steps
}

/// The migration a step refers to, by index; `None` for clearing
/// `schema_version`.
pub open spec fn step_target(s: StepView) -> Option<int> {
    match s {
        StepView::DropTarget(i) => Some(i),
        StepView::ClearVersions => None,
        StepView::Apply(i) => Some(i),
        StepView::Record(i) => Some(i),
        StepView::Update(i) => Some(i),
        StepView::WarnNameDivergence(i, _) => Some(i),
        StepView::WarnSqlChanged(i) => Some(i),
        StepView::InfoApplying(i) => Some(i),
        StepView::InfoApplied(i) => Some(i),
        StepView::InfoRecreated(i) => Some(i),
    }
}

/// The step refers to no migration outside the first `n`.
pub open spec fn step_in_range(n: int, s: StepView) -> bool {
    match step_target(s) {
        Some(i) => 0 <= i < n,
        None => true,
    }
}

impl MigrationStep {
    /// The index of the migration the step refers to; `None` for clearing
    /// `schema_version`.
    pub fn migration(&self) -> (r: Option<usize>)
        ensures
            r matches Some(i) ==> step_target(self@) == Some(i as int),
            r is None ==> step_target(self@) is None,
    {
        match self {
            MigrationStep::DropTarget(i) => Some(*i),
            MigrationStep::ClearVersions => None,
            MigrationStep::Apply(i) => Some(*i),
            MigrationStep::Record(i) => Some(*i),
            MigrationStep::Update(i) => Some(*i),
            MigrationStep::WarnNameDivergence { migration, .. } => Some(*migration),
            MigrationStep::WarnSqlChanged(i) => Some(*i),
            MigrationStep::InfoApplying(i) => Some(*i),
            MigrationStep::InfoApplied(i) => Some(*i),
            MigrationStep::InfoRecreated(i) => Some(*i),
        }
    }
}

proof fn lemma_steps_upto_in_range(ms: Seq<Migration>, rows: Seq<AppliedRow>, k: int)
    requires
        0 <= k <= ms.len(),
    ensures
        forall|j: int| 0 <= j < steps_upto(ms, rows, k).len() ==> step_in_range(
            ms.len() as int,
            #[trigger] steps_upto(ms, rows, k)[j],
        ),
    decreases k,
{
    if k > 0 {
        lemma_steps_upto_in_range(ms, rows, k - 1);
        let a = steps_upto(ms, rows, k - 1);
        let b = migration_steps(ms, k - 1, rows);
        assert forall|j: int| 0 <= j < b.len() implies step_target(#[trigger] b[j]) == Some(k - 1) by {}
        assert forall|j: int| 0 <= j < (a + b).len() implies step_in_range(ms.len() as int, #[trigger] (a + b)[j]) by {
            if j >= a.len() {
                assert((a + b)[j] == b[j - a.len()]);
            }
        }
    }
}

proof fn lemma_drops_upto_in_range(n: int, k: int)
    requires
        0 <= k <= n,
    ensures
        forall|j: int| 0 <= j < drops_upto(k).len() ==> step_in_range(n, #[trigger] drops_upto(k)[j]),
    decreases k,
{
    if k > 0 {
        lemma_drops_upto_in_range(n, k - 1);
        let a = seq![StepView::DropTarget(k - 1)];
        let b = drops_upto(k - 1);
        assert forall|j: int| 0 <= j < (a + b).len() implies step_in_range(n, #[trigger] (a + b)[j]) by {
            if j >= 1 {
                assert((a + b)[j] == b[j - 1]);
            }
        }
    }
}

/// Every planned step refers to a migration of the list.
proof fn lemma_plan_in_range(ms: Seq<Migration>, rows: Seq<AppliedRow>, drop_first: bool)
    ensures
        forall|j: int| 0 <= j < spec_plan(ms, rows, drop_first).len() ==> step_in_range(
            ms.len() as int,
            #[trigger] spec_plan(ms, rows, drop_first)[j],
        ),
{
    let n = ms.len() as int;
    if drop_first {
        lemma_drops_upto_in_range(n, n);
        lemma_steps_upto_in_range(ms, Seq::empty(), n);
        let a = drops_upto(n) + seq![StepView::ClearVersions];
        let b = steps_upto(ms, Seq::empty(), n);
        assert forall|j: int| 0 <= j < (a + b).len() implies step_in_range(n, #[trigger] (a + b)[j]) by {
            if j >= a.len() {
                assert((a + b)[j] == b[j - a.len()]);
            } else if j < drops_upto(n).len() {
                assert(a[j] == drops_upto(n)[j]);
            }
        }
    } else {
        lemma_steps_upto_in_range(ms, rows, n);
    }
}

/// Whether a step runs a statement (the other steps only report).
pub open spec fn runs_sql(s: StepView) -> bool {
    match s {
        StepView::DropTarget(_) | StepView::ClearVersions | StepView::Apply(_) | StepView::Record(_)
        | StepView::Update(_) => true,
        _ => false,
    }
}

/// The statement a step runs, `applied_on` being the time written into a
/// new or updated record; `None` for a step that only reports.
pub open spec fn spec_step_sql(ms: Seq<Migration>, s: StepView, applied_on: Seq<char>) -> Option<Seq<char>> {
    match s {
        StepView::DropTarget(i) => Some(spec_drop_target_sql(ms[i])),
        StepView::ClearVersions => Some(CLEAR_SCHEMA_VERSION_SQL@),
        StepView::Apply(i) => Some(ms[i].sql@),
        StepView::Record(i) => Some(spec_record_version_sql(ms[i], applied_on)),
        StepView::Update(i) => Some(spec_update_version_sql(ms[i], applied_on)),
        _ => None,
    }
}

/// The statement a planned step runs. See [`spec_step_sql`].
pub fn step_sql(ms: &Vec<Migration>, step: &MigrationStep, applied_on: &str) -> (sql: Option<String>)
    requires
        step_in_range(ms@.len() as int, step@),
    ensures
        sql is Some <==> runs_sql(step@),
        sql matches Some(q) ==> spec_step_sql(ms@, step@, applied_on@) == Some(q@),
{
    match step {
        MigrationStep::DropTarget(i) => Some(drop_target_sql(&ms[*i])),
        MigrationStep::ClearVersions => {
            let mut q = String::new();
            push_text(&mut q, CLEAR_SCHEMA_VERSION_SQL);
            assert(q@ =~= CLEAR_SCHEMA_VERSION_SQL@);
            Some(q)
        },
        MigrationStep::Apply(i) => {
            let mut q = String::new();
            push_text(&mut q, ms[*i].sql);
            assert(q@ =~= ms@[*i as int].sql@);
            Some(q)
        },
        MigrationStep::Record(i) => Some(record_version_sql(&ms[*i], applied_on)),
        MigrationStep::Update(i) => Some(update_version_sql(&ms[*i], applied_on)),
        _ => None,
    }
}

/// `V{version}__{name}`: how messages name a migration.
pub open spec fn migration_tag(m: Migration) -> Seq<char> {
    "V"@ + int_decimal(m.version as int) + "__"@ + m.name@
}

/// The error that ends a run when the statement of a step fails with `err`.
pub open spec fn spec_failure_message(ms: Seq<Migration>, s: StepView, err: Seq<char>) -> Seq<char> {
    match s {
        StepView::DropTarget(i) => "Failed to drop table for "@ + migration_tag(ms[i]) + ": "@ + err,
        StepView::ClearVersions => "Failed to clear schema_version: "@ + err,
        StepView::Apply(i) => "Migration "@ + migration_tag(ms[i]) + " failed: "@ + err,
        StepView::Record(i) => "Failed to record "@ + migration_tag(ms[i]) + ": "@ + err,
        StepView::Update(i) => "Failed to update "@ + migration_tag(ms[i]) + ": "@ + err,
        _ => err,
    }
}

fn push_tag(out: &mut String, m: &Migration)
    ensures
        final(out)@ == old(out)@ + migration_tag(*m),
{
    let ghost start = out@;
    push_text(out, "V");
    push_i64_decimal(out, m.version as i64);
    push_text(out, "__");
    push_text(out, m.name);
    assert(out@ =~= start + migration_tag(*m));
}

/// The error that ends a run when the statement of `step` fails with `err`.
/// See [`spec_failure_message`].
pub fn failure_message(ms: &Vec<Migration>, step: &MigrationStep, err: &str) -> (msg: String)
    requires
        step_in_range(ms@.len() as int, step@),
        runs_sql(step@),
    ensures
        msg@ == spec_failure_message(ms@, step@, err@),
{
    let mut msg = String::new();
    match step {
        MigrationStep::DropTarget(i) => {
            push_text(&mut msg, "Failed to drop table for ");
            push_tag(&mut msg, &ms[*i]);
            push_text(&mut msg, ": ");
        },
        MigrationStep::ClearVersions => {
            push_text(&mut msg, "Failed to clear schema_version: ");
        },
        MigrationStep::Apply(i) => {
            push_text(&mut msg, "Migration ");
            push_tag(&mut msg, &ms[*i]);
            push_text(&mut msg, " failed: ");
        },
        MigrationStep::Record(i) => {
            push_text(&mut msg, "Failed to record ");
            push_tag(&mut msg, &ms[*i]);
            push_text(&mut msg, ": ");
        },
        MigrationStep::Update(i) => {
            push_text(&mut msg, "Failed to update ");
            push_tag(&mut msg, &ms[*i]);
            push_text(&mut msg, ": ");
        },
        _ => {},
    }
    push_text(&mut msg, err);
    assert(msg@ =~= spec_failure_message(ms@, step@, err@));
    msg
}

/// `CREATE TABLE` for the `trades` table.
pub const V1_CREATE_TRADES_SQL: &'static str = "CREATE TABLE IF NOT EXISTS trades (inst_id SYMBOL INDEX, exchange SYMBOL INDEX, trade_id SYMBOL, seq_id LONG, px DOUBLE, sz DOUBLE, side SYMBOL INDEX, latency LONG, ts TIMESTAMP) TIMESTAMP(ts) PARTITION BY HOUR TTL 1 HOUR WAL";

/// `CREATE TABLE` for the `lob_levels` table.
pub const V2_CREATE_LOB_LEVELS_SQL: &'static str = "CREATE TABLE IF NOT EXISTS lob_levels (inst_id SYMBOL INDEX, exchange SYMBOL INDEX, side SYMBOL INDEX, price DOUBLE, size DOUBLE, best_diff DOUBLE, latency LONG, snapshot_id LONG, level INT, ts TIMESTAMP) TIMESTAMP(ts) PARTITION BY HOUR TTL 1 HOUR WAL";

/// `CREATE TABLE` for the `lob_snapshots` table.
pub const V3_CREATE_LOB_SNAPSHOTS_SQL: &'static str = "CREATE TABLE IF NOT EXISTS lob_snapshots (inst_id SYMBOL INDEX, exchange SYMBOL INDEX, snapshot_id LONG, sequence LONG, best_bid_price DOUBLE, best_bid_size DOUBLE, best_ask_price DOUBLE, best_ask_size DOUBLE, ts TIMESTAMP) TIMESTAMP(ts) PARTITION BY HOUR TTL 25 HOURS WAL";

/// `CREATE VIEW` for the `lob` view joining snapshots and their levels; the
/// view is dropped first so that the migration can always be re-run.
pub const V4_CREATE_VIEW_LOB_SQL: &'static str = "DROP VIEW IF EXISTS 'lob'; CREATE VIEW 'lob' AS (SELECT s.ts, s.inst_id, s.exchange, s.snapshot_id, l.side, l.level, l.price, l.size FROM lob_snapshots s JOIN lob_levels l ON s.snapshot_id = l.snapshot_id AND s.inst_id = l.inst_id)";

/// The embedded migrations, in version order.
pub fn migrations() -> (ms: Vec<Migration>)
    ensures
        ms@.len() == 4,
        forall|i: int| 0 <= i < ms@.len() ==> (#[trigger] ms@[i]).version == i + 1,
        ms@[0].name@ == "create_trades"@ && ms@[0].table_name@ == "trades"@ && !ms@[0].is_view,
        ms@[1].name@ == "create_lob_levels"@ && ms@[1].table_name@ == "lob_levels"@ && !ms@[1].is_view,
        ms@[2].name@ == "create_lob_snapshots"@ && ms@[2].table_name@ == "lob_snapshots"@ && !ms@[2].is_view,
        ms@[3].name@ == "create_view_lob"@ && ms@[3].table_name@ == "lob"@ && ms@[3].is_view,
        ms@[0].sql@ == V1_CREATE_TRADES_SQL@,
        ms@[1].sql@ == V2_CREATE_LOB_LEVELS_SQL@,
        ms@[2].sql@ == V3_CREATE_LOB_SNAPSHOTS_SQL@,
        ms@[3].sql@ == V4_CREATE_VIEW_LOB_SQL@,
{
    let mut ms: Vec<Migration> = Vec::new();
    ms.push(Migration { version: 1, name: "create_trades", table_name: "trades", is_view: false, sql: V1_CREATE_TRADES_SQL });
    ms.push(Migration { version: 2, name: "create_lob_levels", table_name: "lob_levels", is_view: false, sql: V2_CREATE_LOB_LEVELS_SQL });
    ms.push(Migration { version: 3, name: "create_lob_snapshots", table_name: "lob_snapshots", is_view: false, sql: V3_CREATE_LOB_SNAPSHOTS_SQL });
    ms.push(Migration { version: 4, name: "create_view_lob", table_name: "lob", is_view: true, sql: V4_CREATE_VIEW_LOB_SQL });
    ms
}

/// The row a migration's record holds once written: its version, its name
/// and the hash of its SQL.
pub open spec fn recorded_row(m: Migration) -> AppliedRow {
    (m.version, m.name@, Some(spec_sql_hash(m.sql@)))
}

/// What one step does to the recorded rows: clearing empties them, recording
/// appends the migration's row, updating rewrites every row of its version;
/// the other steps leave them unchanged.
pub open spec fn step_effect(ms: Seq<Migration>, rows: Seq<AppliedRow>, step: StepView) -> Seq<AppliedRow> {
    match step {
        StepView::ClearVersions => Seq::empty(),
        StepView::Record(i) => rows.push(recorded_row(ms[i])),
        StepView::Update(i) => rows.map_values(
            |r: AppliedRow|
                if r.0 == ms[i].version {
                    recorded_row(ms[i])
                } else {
                    r
                },
        ),
        _ => rows,
    }
}

/// The recorded rows after a successful run of `steps`.
pub open spec fn run_effect(ms: Seq<Migration>, rows: Seq<AppliedRow>, steps: Seq<StepView>) -> Seq<
    AppliedRow,
>
    decreases steps.len(),
{
    if steps.len() == 0 {
        rows
    } else {
        step_effect(ms, run_effect(ms, rows, steps.drop_last()), steps.last())
    }
}

/// The embedded migrations have pairwise distinct versions.
pub open spec fn distinct_versions(ms: Seq<Migration>) -> bool {
    forall|i: int, j: int| 0 <= i < ms.len() && 0 <= j < ms.len() && i != j ==> ms[i].version != ms[j].version
}

/// A migration's steps change nothing: none at all, or only a warning that
/// its recorded name differs.
pub open spec fn changes_nothing(steps: Seq<StepView>) -> bool {
    steps.len() == 0 || (steps.len() == 1 && steps[0] is WarnNameDivergence)
}

proof fn lemma_run_effect_concat(ms: Seq<Migration>, rows: Seq<AppliedRow>, a: Seq<StepView>, b: Seq<StepView>)
    ensures
        run_effect(ms, rows, a + b) == run_effect(ms, run_effect(ms, rows, a), b),
    decreases b.len(),
{
    if b.len() == 0 {
        assert(a + b =~= a);
    } else {
        assert((a + b).drop_last() =~= a + b.drop_last());
        assert((a + b).last() == b.last());
        lemma_run_effect_concat(ms, rows, a, b.drop_last());
    }
}

proof fn lemma_last_row_push(rows: Seq<AppliedRow>, r: AppliedRow, v: i32)
    ensures
        last_row(rows.push(r), v) == if r.0 == v {
            Some(r)
        } else {
            last_row(rows, v)
        },
{
    assert(rows.push(r).drop_last() =~= rows);
}

proof fn lemma_last_row_update(ms: Seq<Migration>, i: int, rows: Seq<AppliedRow>, v: i32)
    requires
        0 <= i < ms.len(),
    ensures
        last_row(step_effect(ms, rows, StepView::Update(i)), v) == if v == ms[i].version {
            if last_row(rows, v) is Some {
                Some(recorded_row(ms[i]))
            } else {
                None
            }
        } else {
            last_row(rows, v)
        },
    decreases rows.len(),
{
    let f = |r: AppliedRow|
        if r.0 == ms[i].version {
            recorded_row(ms[i])
        } else {
            r
        };
    if rows.len() > 0 {
        lemma_last_row_update(ms, i, rows.drop_last(), v);
        assert(rows.map_values(f).drop_last() =~= rows.drop_last().map_values(f));
    }
}

/// The effect of one migration's steps, planned against `planned_rows`, on
/// rows that agree with them on that migration's version.
proof fn lemma_migration_effect(ms: Seq<Migration>, k: int, planned_rows: Seq<AppliedRow>, rows: Seq<AppliedRow>, v: i32)
    requires
        0 <= k < ms.len(),
        last_row(rows, ms[k].version) == last_row(planned_rows, ms[k].version),
    ensures
        v != ms[k].version ==> last_row(run_effect(ms, rows, migration_steps(ms, k, planned_rows)), v)
            == last_row(rows, v),
        v == ms[k].version ==> ({
            let after = last_row(run_effect(ms, rows, migration_steps(ms, k, planned_rows)), v);
            &&& after is Some
            &&& after.unwrap().2 == Some(spec_sql_hash(ms[k].sql@))
            &&& (after == Some(recorded_row(ms[k])) || after == last_row(rows, v))
        }),
{
    let steps = migration_steps(ms, k, planned_rows);
    reveal_with_fuel(run_effect, 6);
    let m = ms[k];
    match last_row(planned_rows, m.version) {
        Some(row) => {
            if row.2 == Some(spec_sql_hash(m.sql@)) {
                if row.1 != m.name@ {
                    assert(run_effect(ms, rows, steps) == rows);
                } else {
                    assert(run_effect(ms, rows, steps) == rows);
                }
            } else {
                let s3 = seq![StepView::WarnSqlChanged(k), StepView::DropTarget(k), StepView::Apply(k)];
                assert(steps.drop_last().drop_last() =~= s3);
                assert(run_effect(ms, rows, s3) == rows);
                lemma_last_row_update(ms, k, rows, v);
            }
        },
        None => {
            let s2 = seq![StepView::InfoApplying(k), StepView::Apply(k)];
            assert(steps.drop_last().drop_last() =~= s2);
            assert(run_effect(ms, rows, s2) == rows);
            lemma_last_row_push(rows, recorded_row(m), v);
        },
    }
}

/// The rows after the steps of the first `k` migrations planned against
/// `rows0` (and run from `rows0`): each of those migrations has a last row
/// with its current hash, either its own recorded row or the one found at
/// planning time; the other versions are untouched.
proof fn lemma_steps_upto_effect(ms: Seq<Migration>, rows0: Seq<AppliedRow>, k: int)
    requires
        0 <= k <= ms.len(),
        distinct_versions(ms),
    ensures
        forall|j: int| #![trigger ms[j]] 0 <= j < k ==> {
            let after = last_row(run_effect(ms, rows0, steps_upto(ms, rows0, k)), ms[j].version);
            &&& after is Some
            &&& after.unwrap().2 == Some(spec_sql_hash(ms[j].sql@))
            &&& (after == Some(recorded_row(ms[j])) || after == last_row(rows0, ms[j].version))
        },
        forall|v: i32|
            (forall|j: int| 0 <= j < k ==> ms[j].version != v) ==> #[trigger] last_row(
                run_effect(ms, rows0, steps_upto(ms, rows0, k)),
                v,
            ) == last_row(rows0, v),
    decreases k,
{
    if k > 0 {
        lemma_steps_upto_effect(ms, rows0, k - 1);
        let prev = run_effect(ms, rows0, steps_upto(ms, rows0, k - 1));
        lemma_run_effect_concat(ms, rows0, steps_upto(ms, rows0, k - 1), migration_steps(ms, k - 1, rows0));
        let now = run_effect(ms, rows0, steps_upto(ms, rows0, k));
        assert(forall|j: int| #![trigger ms[j]] 0 <= j < k - 1 ==> ms[j].version != ms[k - 1].version);
        assert(last_row(prev, ms[k - 1].version) == last_row(rows0, ms[k - 1].version));
        assert forall|j: int| #![trigger ms[j]] 0 <= j < k implies {
            let after = last_row(now, ms[j].version);
            &&& after is Some
            &&& after.unwrap().2 == Some(spec_sql_hash(ms[j].sql@))
            &&& (after == Some(recorded_row(ms[j])) || after == last_row(rows0, ms[j].version))
        } by {
            lemma_migration_effect(ms, k - 1, rows0, prev, ms[j].version);
        }
        assert forall|v: i32| (forall|j: int| 0 <= j < k ==> ms[j].version != v) implies #[trigger] last_row(
            now,
            v,
        ) == last_row(rows0, v) by {
            assert(ms[k - 1].version != v);
            lemma_migration_effect(ms, k - 1, rows0, prev, v);
        }
    }
}

/// Migrations are idempotent: after a successful run, running again changes
/// nothing. Every migration then finds a record with its current SQL hash,
/// so none is applied, dropped, recorded or updated again; at most an
/// unchanged migration whose recorded name differs is warned about again.
/// After a drop-first run not even that remains.
pub proof fn lemma_rerun_changes_nothing(ms: Seq<Migration>, rows: Seq<AppliedRow>, drop_first: bool, j: int)
    requires
        distinct_versions(ms),
        0 <= j < ms.len(),
    ensures
        changes_nothing(
            migration_steps(ms, j, run_effect(ms, rows, spec_plan(ms, rows, drop_first))),
        ),
        drop_first ==> migration_steps(ms, j, run_effect(ms, rows, spec_plan(ms, rows, drop_first)))
            == Seq::<StepView>::empty(),
{
    let after = run_effect(ms, rows, spec_plan(ms, rows, drop_first));
    if drop_first {
        lemma_drop_first_records_all(ms, rows);
        lemma_recorded_rows_last(ms, ms.len() as int, ms[j].version, j);
        assert(ms.take(ms.len() as int) =~= ms);
        assert(last_row(after, ms[j].version) == Some(recorded_row(ms[j])));
        assert(migration_steps(ms, j, after) =~= Seq::<StepView>::empty());
    } else {
        lemma_steps_upto_effect(ms, rows, ms.len() as int);
        let row = last_row(after, ms[j].version);
        assert(row is Some && row.unwrap().2 == Some(spec_sql_hash(ms[j].sql@)));
        if row.unwrap().1 != ms[j].name@ {
            assert(migration_steps(ms, j, after) =~= seq![StepView::WarnNameDivergence(j, row.unwrap().1)]);
        } else {
            assert(migration_steps(ms, j, after) =~= Seq::<StepView>::empty());
        }
    }
}

proof fn lemma_recorded_rows_last(ms: Seq<Migration>, k: int, v: i32, j: int)
    requires
        distinct_versions(ms),
        0 <= j < k <= ms.len(),
        v == ms[j].version,
    ensures
        last_row(ms.take(k).map_values(|m: Migration| recorded_row(m)), v) == Some(recorded_row(ms[j])),
    decreases k,
{
    let f = |m: Migration| recorded_row(m);
    assert(ms.take(k).map_values(f) =~= ms.take(k - 1).map_values(f).push(recorded_row(ms[k - 1])));
    lemma_last_row_push(ms.take(k - 1).map_values(f), recorded_row(ms[k - 1]), v);
    if j < k - 1 {
        lemma_recorded_rows_last(ms, k - 1, v, j);
    }
}

proof fn lemma_drops_no_effect(ms: Seq<Migration>, rows: Seq<AppliedRow>, k: int)
    requires
        0 <= k,
    ensures
        run_effect(ms, rows, drops_upto(k)) == rows,
    decreases k,
{
    if k > 0 {
        lemma_drops_no_effect(ms, rows, k - 1);
        lemma_run_effect_concat(ms, rows, seq![StepView::DropTarget(k - 1)], drops_upto(k - 1));
        reveal_with_fuel(run_effect, 2);
        assert(seq![StepView::DropTarget(k - 1)].drop_last() =~= Seq::<StepView>::empty());
        lemma_drops_no_effect(ms, run_effect(ms, rows, seq![StepView::DropTarget(k - 1)]), k - 1);
    }
}

proof fn lemma_fresh_steps_record(ms: Seq<Migration>, k: int)
    requires
        0 <= k <= ms.len(),
    ensures
        run_effect(ms, Seq::empty(), steps_upto(ms, Seq::empty(), k)) == ms.take(k).map_values(
            |m: Migration| recorded_row(m),
        ),
    decreases k,
{
    let f = |m: Migration| recorded_row(m);
    if k == 0 {
        assert(ms.take(0).map_values(f) =~= Seq::<AppliedRow>::empty());
    } else {
        lemma_fresh_steps_record(ms, k - 1);
        lemma_run_effect_concat(ms, Seq::empty(), steps_upto(ms, Seq::empty(), k - 1), migration_steps(ms, k - 1, Seq::empty()));
        let prev = ms.take(k - 1).map_values(f);
        let steps = migration_steps(ms, k - 1, Seq::empty());
        reveal_with_fuel(run_effect, 5);
        let s2 = seq![StepView::InfoApplying(k - 1), StepView::Apply(k - 1)];
        assert(steps.drop_last().drop_last() =~= s2);
        assert(run_effect(ms, prev, s2) == prev);
        assert(ms.take(k).map_values(f) =~= prev.push(recorded_row(ms[k - 1])));
    }
}

/// A drop-first run rebuilds `schema_version` from scratch: afterwards it
/// holds exactly one record per migration, in migration order, whatever it
/// held before.
pub proof fn lemma_drop_first_records_all(ms: Seq<Migration>, rows: Seq<AppliedRow>)
    ensures
        run_effect(ms, rows, spec_plan(ms, rows, true)) == ms.map_values(|m: Migration| recorded_row(m)),
{
    let n = ms.len() as int;
    let pre = drops_upto(n) + seq![StepView::ClearVersions];
    lemma_run_effect_concat(ms, rows, pre, steps_upto(ms, Seq::empty(), n));
    lemma_run_effect_concat(ms, rows, drops_upto(n), seq![StepView::ClearVersions]);
    lemma_drops_no_effect(ms, rows, n);
    reveal_with_fuel(run_effect, 2);
    assert(seq![StepView::ClearVersions].drop_last() =~= Seq::<StepView>::empty());
    assert(run_effect(ms, rows, pre) == Seq::<AppliedRow>::empty());
    lemma_fresh_steps_record(ms, n);
    assert(ms.take(n) =~= ms);
}

} // verus!
