//! The session store: a durable, schema-versioned, append-only log of
//! completed (or abandoned) timer runs.
//!
//! Migrations carry the schema forward: each is a versioned, existence-guarded
//! statement, applied at most once, in ascending version order, tracked by a
//! high-water version mark — so re-running startup on an already-migrated
//! store is a no-op. Rows are appended with store-assigned, monotonically
//! increasing ids and never change afterwards. Queries select by time range
//! and mode and return rows ordered by `completed_at` ascending (ties in
//! insertion order).

use vstd::multiset::Multiset;
use vstd::prelude::*;

verus! {

broadcast use vstd::seq_lib::group_to_multiset_ensures, vstd::multiset::group_multiset_axioms;

/// Lexicographic order on character sequences. Timestamps are ISO-8601 text,
/// whose lexicographic order is chronological order.
pub open spec fn lex_le(a: Seq<char>, b: Seq<char>) -> bool
    decreases a.len(),
{
    if a.len() == 0 {
        true
    } else if b.len() == 0 {
        false
    } else if a[0] == b[0] {
        lex_le(a.skip(1), b.skip(1))
    } else {
        (a[0] as int) < (b[0] as int)
    }
}

pub proof fn lemma_lex_le_total(a: Seq<char>, b: Seq<char>)
    ensures
        lex_le(a, b) || lex_le(b, a),
    decreases a.len(),
{
    if a.len() > 0 && b.len() > 0 && a[0] == b[0] {
        lemma_lex_le_total(a.skip(1), b.skip(1));
    }
}

pub proof fn lemma_lex_le_antisym(a: Seq<char>, b: Seq<char>)
    requires
        lex_le(a, b),
        lex_le(b, a),
    ensures
        a == b,
    decreases a.len(),
{
    if a.len() == 0 {
        assert(a =~= b);
    } else {
        lemma_lex_le_antisym(a.skip(1), b.skip(1));
        assert forall|i: int| 0 <= i < a.len() implies a[i] == b[i] by {
            if i > 0 {
                assert(a.skip(1)[i - 1] == b.skip(1)[i - 1]);
            }
        }
        assert(a =~= b);
    }
}

pub proof fn lemma_lex_le_trans(a: Seq<char>, b: Seq<char>, c: Seq<char>)
    requires
        lex_le(a, b),
        lex_le(b, c),
    ensures
        lex_le(a, c),
    decreases a.len(),
{
    if a.len() > 0 && b.len() > 0 && c.len() > 0 {
        if a[0] == b[0] && b[0] == c[0] {
            lemma_lex_le_trans(a.skip(1), b.skip(1), c.skip(1));
        }
    }
}

/// A session row as a mathematical value.
#[verifier::ext_equal]
pub struct SessionModel {
    pub id: u64,
    pub mode: Seq<char>,
    pub duration_seconds: u64,
    pub completed_at: Seq<char>,
    pub completed: bool,
}

/// Whether a row satisfies the schema's constraints: a positive duration and
/// a non-empty mode label.
pub open spec fn valid_row(m: SessionModel) -> bool {
    m.duration_seconds >= 1 && m.mode.len() > 0
}

/// One recorded timer run. Immutable once inserted; `id` is assigned by the
/// store, everything else by the caller.
pub struct Session {
    pub id: u64,
    /// Opaque label such as `work` or `short-break`; non-empty.
    pub mode: String,
    /// Nominal length of the run, positive.
    pub duration_seconds: u64,
    /// ISO-8601 timestamp text, set by the caller at insert time.
    pub completed_at: String,
    /// True for finished runs, false for interrupted ones.
    pub completed: bool,
}

impl View for Session {
    type V = SessionModel;

    open spec fn view(&self) -> SessionModel {
        SessionModel {
            id: self.id,
            mode: self.mode@,
            duration_seconds: self.duration_seconds,
            completed_at: self.completed_at@,
            completed: self.completed,
        }
    }
}

/// The caller-supplied part of a row; the store assigns the id.
pub struct NewSession {
    pub mode: String,
    pub duration_seconds: u64,
    pub completed_at: String,
    /// Defaults to true in the schema: a finished run.
    pub completed: bool,
}

/// A new row as a mathematical value.
#[verifier::ext_equal]
pub struct NewSessionModel {
    pub mode: Seq<char>,
    pub duration_seconds: u64,
    pub completed_at: Seq<char>,
    pub completed: bool,
}

impl NewSessionModel {
    /// The schema's constraints on caller-supplied data.
    pub open spec fn valid(self) -> bool {
        self.duration_seconds >= 1 && self.mode.len() > 0
    }
}

impl NewSession {
    /// A finished run: `completed` takes its schema default, true.
    pub fn finished(mode: String, duration_seconds: u64, completed_at: String) -> (s: Self)
        ensures
            s@ == (NewSessionModel {
                mode: mode@,
                duration_seconds,
                completed_at: completed_at@,
                completed: true,
            }),
    {
        NewSession { mode, duration_seconds, completed_at, completed: true }
    }
}

impl View for NewSession {
    type V = NewSessionModel;

    open spec fn view(&self) -> NewSessionModel {
        NewSessionModel {
            mode: self.mode@,
            duration_seconds: self.duration_seconds,
            completed_at: self.completed_at@,
            completed: self.completed,
        }
    }
}

/// A query: an inclusive `completed_at` range, optionally restricted to one
/// mode.
pub struct SessionFilter {
    pub from: String,
    pub to: String,
    pub mode: Option<String>,
}

/// A filter as a mathematical value.
#[verifier::ext_equal]
pub struct FilterModel {
    pub from: Seq<char>,
    pub to: Seq<char>,
    pub mode: Option<Seq<char>>,
}

impl View for SessionFilter {
    type V = FilterModel;

    open spec fn view(&self) -> FilterModel {
        FilterModel {
            from: self.from@,
            to: self.to@,
            mode: match self.mode {
                Some(ref m) => Some(m@),
                None => None,
            },
        }
    }
}

impl FilterModel {
    /// Whether the filter selects a row: `completed_at` inside the range and,
    /// when a mode is given, the same mode.
    pub open spec fn selects(self, row: SessionModel) -> bool {
        lex_le(self.from, row.completed_at) && lex_le(row.completed_at, self.to) && (
        match self.mode {
            Some(m) => row.mode == m,
            None => true,
        })
    }
}

/// Query order: `completed_at` ascending, ties broken by id — that is, by
/// insertion order, since ids increase monotonically.
pub open spec fn row_le(a: SessionModel, b: SessionModel) -> bool {
    if a.completed_at == b.completed_at {
        a.id <= b.id
    } else {
        lex_le(a.completed_at, b.completed_at)
    }
}

pub proof fn lemma_row_le_total(a: SessionModel, b: SessionModel)
    ensures
        row_le(a, b) || row_le(b, a),
{
    if a.completed_at != b.completed_at {
        lemma_lex_le_total(a.completed_at, b.completed_at);
    }
}

pub proof fn lemma_row_le_trans(a: SessionModel, b: SessionModel, c: SessionModel)
    requires
        row_le(a, b),
        row_le(b, c),
    ensures
        row_le(a, c),
{
    if a.completed_at != b.completed_at && b.completed_at != c.completed_at {
        lemma_lex_le_trans(a.completed_at, b.completed_at, c.completed_at);
        if a.completed_at == c.completed_at {
            lemma_lex_le_antisym(a.completed_at, b.completed_at);
        }
    }
}

/// Sorted in query order.
pub open spec fn rows_sorted(rows: Seq<SessionModel>) -> bool {
    forall|i: int, j: int| 0 <= i <= j < rows.len() ==> #[trigger] row_le(rows[i], rows[j])
}

/// The rows of the store as mathematical values.
pub open spec fn views_of(rows: Seq<Session>) -> Seq<SessionModel> {
    rows.map_values(|s: Session| s@)
}

proof fn lemma_views_of_push(rows: Seq<Session>, s: Session)
    ensures
        views_of(rows.push(s)) =~= views_of(rows).push(s@),
{
}

proof fn lemma_views_of_insert(rows: Seq<Session>, p: int, s: Session)
    requires
        0 <= p <= rows.len(),
    ensures
        views_of(rows.insert(p, s)) =~= views_of(rows).insert(p, s@),
{
}

/// The schema-level state that migrations read and write.
#[derive(Clone, Copy, PartialEq, Eq, Structural, Debug)]
pub struct SchemaState {
    /// High-water mark: the highest migration version applied so far, 0 for a
    /// fresh store.
    pub version: u64,
    /// Whether the `sessions` table exists.
    pub sessions_table: bool,
    /// Whether the index over `completed_at` exists.
    pub completed_at_index: bool,
}

/// One existence-guarded schema statement. Each creates its object only if it
/// does not exist yet, so repeating a step never fails and never changes an
/// already-migrated schema.
#[derive(Clone, Copy, PartialEq, Eq, Structural, Debug)]
pub enum SchemaStep {
    /// Create the `sessions` table, if it does not exist.
    CreateSessionsTable,
    /// Create the index over `completed_at`, if it does not exist.
    CreateCompletedAtIndex,
}

/// Effect of one schema statement.
pub open spec fn apply_step(sch: SchemaState, step: SchemaStep) -> SchemaState {
    match step {
        SchemaStep::CreateSessionsTable => SchemaState {
            version: sch.version,
            sessions_table: true,
            completed_at_index: sch.completed_at_index,
        },
        SchemaStep::CreateCompletedAtIndex => SchemaState {
            version: sch.version,
            sessions_table: sch.sessions_table,
            completed_at_index: true,
        },
    }
}

/// Effect of a migration's statements, in order.
pub open spec fn apply_steps(sch: SchemaState, steps: Seq<SchemaStep>) -> SchemaState
    decreases steps.len(),
{
    if steps.len() == 0 {
        sch
    } else {
        apply_step(apply_steps(sch, steps.drop_last()), steps.last())
    }
}

/// A versioned schema migration.
pub struct Migration {
    pub version: u64,
    pub steps: Vec<SchemaStep>,
}

/// A migration as a mathematical value.
#[verifier::ext_equal]
pub struct MigrationModel {
    pub version: u64,
    pub steps: Seq<SchemaStep>,
}

impl View for Migration {
    type V = MigrationModel;

    open spec fn view(&self) -> MigrationModel {
        MigrationModel { version: self.version, steps: self.steps@ }
    }
}

/// The migration list as mathematical values.
pub open spec fn migs_model(ms: Seq<Migration>) -> Seq<MigrationModel> {
    ms.map_values(|m: Migration| m@)
}

/// Effect of one migration: applied only when its version exceeds the
/// high-water mark, and then recorded in the mark.
pub open spec fn apply_migration(sch: SchemaState, m: MigrationModel) -> SchemaState {
    if m.version > sch.version {
        let applied = apply_steps(sch, m.steps);
        SchemaState {
            version: m.version,
            sessions_table: applied.sessions_table,
            completed_at_index: applied.completed_at_index,
        }
    } else {
        sch
    }
}

/// Effect of a whole migration list, in order.
pub open spec fn apply_all(sch: SchemaState, ms: Seq<MigrationModel>) -> SchemaState
    decreases ms.len(),
{
    if ms.len() == 0 {
        sch
    } else {
        apply_migration(apply_all(sch, ms.drop_last()), ms.last())
    }
}

proof fn lemma_apply_steps_version(sch: SchemaState, steps: Seq<SchemaStep>)
    ensures
        apply_steps(sch, steps).version == sch.version,
    decreases steps.len(),
{
    if steps.len() > 0 {
        lemma_apply_steps_version(sch, steps.drop_last());
    }
}

proof fn lemma_apply_all_version(sch: SchemaState, ms: Seq<MigrationModel>)
    ensures
        apply_all(sch, ms).version >= sch.version,
        forall|i: int| 0 <= i < ms.len() ==> apply_all(sch, ms).version >= (#[trigger] ms[i]).version,
    decreases ms.len(),
{
    if ms.len() > 0 {
        lemma_apply_all_version(sch, ms.drop_last());
        lemma_apply_steps_version(apply_all(sch, ms.drop_last()), ms.last().steps);
        assert(forall|i: int| 0 <= i < ms.len() - 1 ==> ms.drop_last()[i] == #[trigger] ms[i]);
    }
}

proof fn lemma_apply_steps_table_monotone(sch: SchemaState, steps: Seq<SchemaStep>)
    ensures
        sch.sessions_table ==> apply_steps(sch, steps).sessions_table,
    decreases steps.len(),
{
    if steps.len() > 0 {
        lemma_apply_steps_table_monotone(sch, steps.drop_last());
    }
}

proof fn lemma_apply_all_table_monotone(sch: SchemaState, ms: Seq<MigrationModel>)
    ensures
        sch.sessions_table ==> apply_all(sch, ms).sessions_table,
    decreases ms.len(),
{
    if ms.len() > 0 {
        lemma_apply_all_table_monotone(sch, ms.drop_last());
        lemma_apply_steps_table_monotone(apply_all(sch, ms.drop_last()), ms.last().steps);
    }
}

proof fn lemma_apply_all_noop(sch: SchemaState, ms: Seq<MigrationModel>)
    requires
        forall|i: int| 0 <= i < ms.len() ==> sch.version >= (#[trigger] ms[i]).version,
    ensures
        apply_all(sch, ms) == sch,
    decreases ms.len(),
{
    if ms.len() > 0 {
        assert(forall|i: int| 0 <= i < ms.len() - 1 ==> ms.drop_last()[i] == #[trigger] ms[i]);
        lemma_apply_all_noop(sch, ms.drop_last());
    }
}

/// Law: migrations are idempotent. Applying the full migration list twice in
/// a row leaves the schema exactly as applying it once: after the first pass
/// the high-water mark is at or above every listed version, so the second
/// pass applies nothing.
pub proof fn lemma_migrations_idempotent(sch: SchemaState, ms: Seq<MigrationModel>)
    ensures
        apply_all(apply_all(sch, ms), ms) == apply_all(sch, ms),
{
    lemma_apply_all_version(sch, ms);
    lemma_apply_all_noop(apply_all(sch, ms), ms);
}

/// The full migration list, ascending by version. Version 1 creates the
/// `sessions` table and its `completed_at` index.
pub fn migrations() -> (ms: Vec<Migration>)
    ensures
        migs_model(ms@).len() == 1,
        migs_model(ms@)[0].version == 1,
        migs_model(ms@)[0].steps =~= seq![
            SchemaStep::CreateSessionsTable,
            SchemaStep::CreateCompletedAtIndex,
        ],
{
    let mut steps: Vec<SchemaStep> = Vec::new();
    steps.push(SchemaStep::CreateSessionsTable);
    steps.push(SchemaStep::CreateCompletedAtIndex);
    let mut ms: Vec<Migration> = Vec::new();
    ms.push(Migration { version: 1, steps });
    ms
}

/// Failures the store reports to its caller. Storage failures are the one
/// error category handed back to the presentation layer rather than
/// swallowed: lost session data would be user-visible.
#[derive(Clone, Copy, PartialEq, Eq, Structural, Debug)]
pub enum StoreError {
    /// The `sessions` table does not exist: migrations have not been applied.
    MissingSessionsTable,
}

/// The session store. Owns the table's schema and lifecycle; rows are
/// produced by the presentation layer and only appended here.
pub struct SessionStore {
    schema: SchemaState,
    next_id: u64,
    rows: Vec<Session>,
}

impl SessionStore {
    /// The store's schema-level state.
    pub closed spec fn schema_state(self) -> SchemaState {
        self.schema
    }

    /// The stored rows, oldest first, as mathematical values.
    pub closed spec fn rows_model(self) -> Seq<SessionModel> {
        views_of(self.rows@)
    }

    /// The id the next inserted row will receive.
    pub closed spec fn spec_next_id(self) -> u64 {
        self.next_id
    }

    pub closed spec fn has_sessions_table(self) -> bool {
        self.schema.sessions_table
    }

    /// Well-formed store: ids run 1, 2, ... in insertion order and are never
    /// reused; every row meets the schema's constraints; rows exist only
    /// once the table does.
    pub closed spec fn wf(self) -> bool {
        &&& self.next_id as int == self.rows@.len() + 1
        &&& forall|i: int|
            0 <= i < self.rows_model().len() ==> (#[trigger] self.rows_model()[i]).id as int == i
                + 1
        &&& forall|i: int| 0 <= i < self.rows_model().len() ==> valid_row(
            #[trigger] self.rows_model()[i],
        )
        &&& (!self.schema.sessions_table ==> self.rows@.len() == 0)
    }

    /// The high-water mark of applied migration versions.
    pub fn schema_version(&self) -> (v: u64)
        ensures
            v == self.schema_state().version,
    {
        self.schema.version
    }

    /// Whether the `sessions` table exists.
    pub fn sessions_table_exists(&self) -> (b: bool)
        ensures
            b == self.schema_state().sessions_table,
    {
        self.schema.sessions_table
    }

    /// Whether the index over `completed_at` exists.
    pub fn completed_at_index_exists(&self) -> (b: bool)
        ensures
            b == self.schema_state().completed_at_index,
    {
        self.schema.completed_at_index
    }

    /// How many rows the store holds.
    pub fn session_count(&self) -> (n: usize)
        ensures
            n == self.rows_model().len(),
    {
        self.rows.len()
    }

    /// A store before any migration: version 0, no table, no rows.
    pub fn new() -> (s: Self)
        ensures
            s.wf(),
            s.schema_state() == (SchemaState {
                version: 0,
                sessions_table: false,
                completed_at_index: false,
            }),
            s.rows_model() == Seq::<SessionModel>::empty(),
    {
        let s = SessionStore {
            schema: SchemaState { version: 0, sessions_table: false, completed_at_index: false },
            next_id: 1,
            rows: Vec::new(),
        };
        proof {
            assert(s.rows_model() =~= Seq::<SessionModel>::empty());
        }
        s
    }

    /// Apply every migration whose version exceeds the high-water mark, in
    /// list order, within one startup pass. Each statement is existence-
    /// guarded, so application cannot fail and re-application is a no-op;
    /// rows and ids are untouched.
    pub fn apply_migrations(&mut self, list: &Vec<Migration>)
        requires
            old(self).wf(),
        ensures
            final(self).wf(),
            final(self).schema_state() == apply_all(old(self).schema_state(), migs_model(list@)),
            final(self).rows_model() == old(self).rows_model(),
            final(self).spec_next_id() == old(self).spec_next_id(),
    {
        let n = list.len();
        let mut i: usize = 0;
        proof {
            assert(migs_model(list@).take(0) =~= Seq::<MigrationModel>::empty());
        }
        while i < n
            invariant
                n == list@.len(),
                i <= n,
                self.schema == apply_all(old(self).schema_state(), migs_model(list@).take(i as int)),
                self.rows@ == old(self).rows@,
                self.next_id == old(self).next_id,
            decreases n - i,
        {
            let ghost prefix = migs_model(list@).take(i as int);
            let ghost entry = self.schema;
            let m_version = list[i].version;
            if m_version > self.schema.version {
                let k = list[i].steps.len();
                let mut j: usize = 0;
                proof {
                    assert(list@[i as int]@.steps.take(0) =~= Seq::<SchemaStep>::empty());
                }
                while j < k
                    invariant
                        0 <= i < list@.len(),
                        k == list@[i as int]@.steps.len(),
                        j <= k,
                        self.schema == apply_steps(entry, list@[i as int]@.steps.take(j as int)),
                        self.rows@ == old(self).rows@,
                        self.next_id == old(self).next_id,
                    decreases k - j,
                {
                    let ghost steps = list@[i as int]@.steps;
                    proof {
                        assert(steps.take(j as int + 1).drop_last() =~= steps.take(j as int));
                        assert(steps.take(j as int + 1).last() == steps[j as int]);
                    }
                    match list[i].steps[j] {
                        SchemaStep::CreateSessionsTable => {
                            self.schema.sessions_table = true;
                        },
                        SchemaStep::CreateCompletedAtIndex => {
                            self.schema.completed_at_index = true;
                        },
                    }
                    j += 1;
                }
                proof {
                    assert(list@[i as int]@.steps.take(k as int) =~= list@[i as int]@.steps);
                }
                self.schema.version = m_version;
            }
            proof {
                assert(migs_model(list@).take(i as int + 1).drop_last() =~= prefix);
                assert(migs_model(list@).take(i as int + 1).last() == list@[i as int]@);
                assert(apply_all(old(self).schema_state(), migs_model(list@).take(i as int + 1))
                    == apply_migration(entry, list@[i as int]@));
            }
            i += 1;
        }
        proof {
            assert(migs_model(list@).take(n as int) =~= migs_model(list@));
            lemma_apply_all_table_monotone(old(self).schema_state(), migs_model(list@));
            assert(self.rows_model() == old(self).rows_model());
            assert(forall|i: int|
                0 <= i < self.rows_model().len() ==> #[trigger] self.rows_model()[i] == old(
                    self,
                ).rows_model()[i]);
        }
    }

    /// Append one session. The store assigns the next monotonic id and never
    /// rejects duplicate content; it fails — leaving everything unchanged —
    /// exactly when the table does not exist yet.
    pub fn insert_session(&mut self, row: &NewSession) -> (r: Result<u64, StoreError>)
        requires
            old(self).wf(),
            row@.valid(),
            old(self).rows_model().len() < u64::MAX - 1,
        ensures
            final(self).wf(),
            final(self).schema_state() == old(self).schema_state(),
            !old(self).has_sessions_table() ==> r == Err::<u64, StoreError>(
                StoreError::MissingSessionsTable,
            ) && *final(self) == *old(self),
            old(self).has_sessions_table() ==> r == Ok::<u64, StoreError>(old(self).spec_next_id())
                && final(self).spec_next_id() == old(self).spec_next_id() + 1
                && final(self).rows_model() == old(self).rows_model().push(
                (SessionModel {
                    id: old(self).spec_next_id(),
                    mode: row@.mode,
                    duration_seconds: row@.duration_seconds,
                    completed_at: row@.completed_at,
                    completed: row@.completed,
                }),
            ),
    {
        if !self.schema.sessions_table {
            return Err(StoreError::MissingSessionsTable);
        }
        let id = self.next_id;
        let s = Session {
            id,
            mode: clone_string(&row.mode),
            duration_seconds: row.duration_seconds,
            completed_at: clone_string(&row.completed_at),
            completed: row.completed,
        };
        proof {
            lemma_views_of_push(self.rows@, s);
        }
        self.rows.push(s);
        self.next_id = id + 1;
        Ok(id)
    }

    /// Select the rows inside the filter's range (and mode, when given),
    /// ordered by `completed_at` ascending, ties in insertion order. Fails
    /// exactly when the table does not exist yet. Fields are returned exactly
    /// as inserted.
    pub fn query(&self, filter: &SessionFilter) -> (r: Result<Vec<Session>, StoreError>)
        requires
            self.wf(),
        ensures
            !self.has_sessions_table() ==> r == Err::<Vec<Session>, StoreError>(
                StoreError::MissingSessionsTable,
            ),
            self.has_sessions_table() ==> r is Ok,
            r matches Ok(out) ==> views_of(out@).to_multiset() == self.rows_model().filter(
                |m: SessionModel| filter@.selects(m),
            ).to_multiset() && rows_sorted(views_of(out@)),
    {
        if !self.schema.sessions_table {
            return Err(StoreError::MissingSessionsTable);
        }
        let ghost pred = |m: SessionModel| filter@.selects(m);
        let mut out: Vec<Session> = Vec::new();
        let n = self.rows.len();
        let mut i: usize = 0;
        proof {
            assert(self.rows_model().take(0) =~= Seq::<SessionModel>::empty());
            assert(views_of(out@) =~= Seq::<SessionModel>::empty());
        }
        while i < n
            invariant
                n == self.rows@.len(),
                i <= n,
                pred == (|m: SessionModel| filter@.selects(m)),
                views_of(out@).to_multiset() == self.rows_model().take(i as int).filter(
                    pred,
                ).to_multiset(),
                rows_sorted(views_of(out@)),
            decreases n - i,
        {
            let ghost prefix = self.rows_model().take(i as int);
            proof {
                reveal(Seq::filter);
                assert(self.rows_model().take(i as int + 1).drop_last() =~= prefix);
                assert(self.rows_model().take(i as int + 1).last() == self.rows_model()[i as int]);
                if pred(self.rows_model()[i as int]) {
                    assert(self.rows_model().take(i as int + 1).filter(pred) =~= prefix.filter(
                        pred,
                    ).push(self.rows_model()[i as int]));
                } else {
                    assert(self.rows_model().take(i as int + 1).filter(pred) =~= prefix.filter(
                        pred,
                    ));
                }
            }
            let row = &self.rows[i];
            if row_selected(filter, row) {
                insert_sorted(&mut out, clone_session(row));
            }
            i += 1;
        }
        proof {
            assert(self.rows_model().take(n as int) =~= self.rows_model());
        }
        Ok(out)
    }
}

/// Copy a string, character for character.
fn clone_string(s: &String) -> (r: String)
    ensures
        r@ == s@,
{
    s.as_str().to_owned()
}

/// Copy a row, field for field.
fn clone_session(s: &Session) -> (c: Session)
    ensures
        c@ == s@,
{
    let c = Session {
        id: s.id,
        mode: clone_string(&s.mode),
        duration_seconds: s.duration_seconds,
        completed_at: clone_string(&s.completed_at),
        completed: s.completed,
    };
    proof {
        assert(c@ =~= s@);
    }
    c
}

/// Whether `completed_at` of `a` comes no later than that of `b`, ties by id.
fn row_le_exec(a: &Session, b: &Session) -> (r: bool)
    ensures
        r == row_le(a@, b@),
{
    if a.completed_at == b.completed_at {
        a.id <= b.id
    } else {
        str_le(a.completed_at.as_str(), b.completed_at.as_str())
    }
}

/// Lexicographic comparison of two strings.
fn str_le(a: &str, b: &str) -> (r: bool)
    ensures
        r == lex_le(a@, b@),
{
    let la = a.unicode_len();
    let lb = b.unicode_len();
    let mut i: usize = 0;
    proof {
        assert(a@.skip(0) =~= a@);
        assert(b@.skip(0) =~= b@);
    }
    while i < la && i < lb
        invariant
            la == a@.len(),
            lb == b@.len(),
            i <= la,
            i <= lb,
            lex_le(a@, b@) == lex_le(a@.skip(i as int), b@.skip(i as int)),
            lex_le(b@, a@) == lex_le(b@.skip(i as int), a@.skip(i as int)),
        decreases la - i,
    {
        proof {
            assert(a@.skip(i as int)[0] == a@[i as int]);
            assert(b@.skip(i as int)[0] == b@[i as int]);
            assert(a@.skip(i as int).skip(1) =~= a@.skip(i as int + 1));
            assert(b@.skip(i as int).skip(1) =~= b@.skip(i as int + 1));
        }
        let ca = a.get_char(i);
        let cb = b.get_char(i);
        if ca != cb {
            return (ca as u32) < (cb as u32);
        }
        i += 1;
    }
    i >= la
}

/// Whether the filter selects a stored row.
fn row_selected(filter: &SessionFilter, row: &Session) -> (b: bool)
    ensures
        b == filter@.selects(row@),
{
    if !str_le(filter.from.as_str(), row.completed_at.as_str()) {
        return false;
    }
    if !str_le(row.completed_at.as_str(), filter.to.as_str()) {
        return false;
    }
    match &filter.mode {
        None => true,
        Some(m) => row.mode == *m,
    }
}

/// Insert a row into a sorted result, keeping it sorted.
fn insert_sorted(v: &mut Vec<Session>, x: Session)
    requires
        rows_sorted(views_of(old(v)@)),
    ensures
        rows_sorted(views_of(final(v)@)),
        views_of(final(v)@).to_multiset() == views_of(old(v)@).to_multiset().insert(x@),
        final(v)@.len() == old(v)@.len() + 1,
{
    let n = v.len();
    let mut p: usize = 0;
    while p < n && !row_le_exec(&x, &v[p])
        invariant
            n == v@.len(),
            p <= n,
            v@ == old(v)@,
            forall|j: int| 0 <= j < p ==> row_le(#[trigger] views_of(v@)[j], x@),
        decreases n - p,
    {
        proof {
            lemma_row_le_total(x@, views_of(v@)[p as int]);
        }
        p += 1;
    }
    proof {
        lemma_views_of_insert(v@, p as int, x);
        let before = views_of(v@);
        let after = views_of(v@).insert(p as int, x@);
        assert forall|i: int, j: int| 0 <= i <= j < after.len() implies row_le(
            after[i],
            after[j],
        ) by {
            if i < p && j == p {
                assert(after[i] == before[i]);
                assert(after[j] == x@);
            } else if i == p && j > p {
                assert(after[j] == before[j - 1]);
                assert(row_le(x@, before[p as int]));
                lemma_row_le_trans(x@, before[p as int], before[j - 1]);
            } else if i < p && j > p {
                assert(after[i] == before[i]);
                assert(after[j] == before[j - 1]);
            } else if i > p && j > p {
                assert(after[i] == before[i - 1]);
                assert(after[j] == before[j - 1]);
            }
        }
    }
    v.insert(p, x);
}

/// All-unselected rows filter to nothing.
proof fn lemma_filter_all_false(rows: Seq<SessionModel>, pred: spec_fn(SessionModel) -> bool)
    requires
        forall|i: int| 0 <= i < rows.len() ==> !pred(#[trigger] rows[i]),
    ensures
        rows.filter(pred) == Seq::<SessionModel>::empty(),
    decreases rows.len(),
{
    reveal(Seq::filter);
    if rows.len() > 0 {
        assert(forall|i: int|
            0 <= i < rows.len() - 1 ==> rows.drop_last()[i] == #[trigger] rows[i]);
        lemma_filter_all_false(rows.drop_last(), pred);
    }
}

/// Law: insert followed by query round-trips the row. A row just inserted is
/// returned, with every field unchanged, as the sole result of any query
/// whose filter selects it, provided the filter selects no previously stored
/// row. `out` is any result with the multiset of rows query promises.
pub proof fn lemma_insert_then_query_roundtrip(
    rows: Seq<SessionModel>,
    row: SessionModel,
    f: FilterModel,
    out: Seq<SessionModel>,
)
    requires
        f.selects(row),
        forall|i: int| 0 <= i < rows.len() ==> !f.selects(#[trigger] rows[i]),
        out.to_multiset() == rows.push(row).filter(|m: SessionModel| f.selects(m)).to_multiset(),
    ensures
        out == seq![row],
{
    reveal(Seq::filter);
    let pred = |m: SessionModel| f.selects(m);
    lemma_filter_all_false(rows, pred);
    assert(rows.push(row).drop_last() =~= rows);
    assert(rows.push(row).last() == row);
    assert(rows.push(row).filter(pred) =~= Seq::<SessionModel>::empty().push(row));
    assert(out.to_multiset() == Seq::<SessionModel>::empty().push(row).to_multiset());
    assert(Seq::<SessionModel>::empty().push(row).to_multiset().len() == 1);
    assert(out.to_multiset().len() == out.len());
    assert(Seq::<SessionModel>::empty().push(row).to_multiset() =~= Multiset::<
        SessionModel,
    >::empty().insert(row)) by {
        assert(forall|x: SessionModel| !Seq::<SessionModel>::empty().contains(x));
        assert(forall|x: SessionModel|
            #[trigger] Seq::<SessionModel>::empty().to_multiset().count(x) == 0);
        assert(Seq::<SessionModel>::empty().to_multiset() =~= Multiset::<SessionModel>::empty());
    }
    assert(out.len() == 1);
    assert(out.contains(out[0]));
    assert(out.to_multiset().count(out[0]) > 0);
    assert(out[0] == row);
    assert(out =~= seq![row]);
}

} // verus!
