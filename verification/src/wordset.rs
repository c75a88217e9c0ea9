//! The word-set store (an in-memory SQLite database seeded from word
//! lists), and the seeded generator and shuffle that randomise a run's words.

use vstd::prelude::*;
use vstd::wrapping::usize_specs;
use std::collections::hash_map::DefaultHasher;
use std::hash::Hasher;
use std::time::{Duration, SystemTime};
use rusqlite::{Connection, Statement};

verus! {


/// One step of the generator's state.
pub open spec fn lcg_step(state: usize) -> usize {
    usize_specs::wrapping_add(usize_specs::wrapping_mul(state, 1103515245), 12345)
}

/// The number that a step from `state` yields.
pub open spec fn lcg_output(state: usize) -> usize {
    lcg_step(state) >> 16
}

/// `s` with the elements at `i` and `j` exchanged.
pub open spec fn seq_swap<T>(s: Seq<T>, i: int, j: int) -> Seq<T> {
    s.update(i, s[j]).update(j, s[i])
}

/// The shuffle's passes for positions `i`, `i - 1`, ..., 1, from generator
/// state `state`: the sequence and the generator state that they leave.
pub open spec fn shuffle_passes<T>(s: Seq<T>, state: usize, i: nat) -> (Seq<T>, usize)
    decreases i,
{
    if i == 0 {
        (s, state)
    } else {
        let next = lcg_step(state);
        let j = ((next >> 16) as nat) % (i + 1);
        shuffle_passes(seq_swap(s, i as int, j as int), next, (i - 1) as nat)
    }
}

/// The shuffle of `s` from generator state `state`: a pass for each position
/// from the last down to 1, each exchanging it with a position drawn at or
/// below it.
pub open spec fn shuffled<T>(s: Seq<T>, state: usize) -> (Seq<T>, usize) {
    if s.len() <= 1 {
        (s, state)
    } else {
        shuffle_passes(s, state, (s.len() - 1) as nat)
    }
}

/// A pseudo-random number generator.
pub struct Rand {
    state: usize,
}

impl View for Rand {
    type V = usize;

    closed spec fn view(&self) -> usize {
        self.state
    }
}

/// A generator whose state is `seed`.
pub fn seed_rng(seed: usize) -> (res: Rand)
    ensures
        res@ == seed,
{
    Rand { state: seed }
}

impl Rand {
    /// Advances the state and returns its bits from the 16th up.
    pub fn next(&mut self) -> (res: usize)
        ensures
            final(self)@ == lcg_step(old(self)@),
            res == lcg_output(old(self)@),
    {
        self.state = self.state.wrapping_mul(1103515245).wrapping_add(12345);
        self.state >> 16
    }
}

/// Exchanges the elements of `v` at `a` and `b`.
#[verifier::external_body]
fn slice_swap<T>(v: &mut [T], a: usize, b: usize)
    requires
        a < old(v)@.len(),
        b < old(v)@.len(),
    ensures
        final(v)@ == seq_swap(old(v)@, a as int, b as int),
{
    v.swap(a, b);
}

/// Exchanging two elements keeps the elements.
pub proof fn lemma_swap_keeps_elements<T>(s: Seq<T>, i: int, j: int)
    requires
        0 <= i < s.len(),
        0 <= j < s.len(),
    ensures
        seq_swap(s, i, j).to_multiset() == s.to_multiset(),
        seq_swap(s, i, j).len() == s.len(),
{
    broadcast use vstd::seq_lib::group_to_multiset_ensures;
    broadcast use vstd::multiset::group_multiset_axioms;
    let s1 = s.update(i, s[j]);
    assert(s1[j] == s[j]);
    assert(s.to_multiset().count(s[i]) > 0) by {
        assert(s.contains(s[i]));
    }
    assert(s1.to_multiset() == s.to_multiset().insert(s[j]).remove(s[i]));
    assert(seq_swap(s, i, j).to_multiset() == s1.to_multiset().insert(s[i]).remove(s[j]));
    assert(seq_swap(s, i, j).to_multiset() =~= s.to_multiset());
}

/// The passes of the shuffle keep the elements.
pub proof fn lemma_passes_keep_elements<T>(s: Seq<T>, state: usize, i: nat)
    requires
        i < s.len(),
    ensures
        shuffle_passes(s, state, i).0.to_multiset() == s.to_multiset(),
        shuffle_passes(s, state, i).0.len() == s.len(),
    decreases i,
{
    if i > 0 {
        let next = lcg_step(state);
        let j = ((next >> 16) as nat) % (i + 1);
        lemma_swap_keeps_elements(s, i as int, j as int);
        lemma_passes_keep_elements(seq_swap(s, i as int, j as int), next, (i - 1) as nat);
    }
}

/// A shuffle rearranges its sequence: the result holds each element as
/// often as the input does.
pub proof fn lemma_shuffle_is_permutation<T>(s: Seq<T>, state: usize)
    ensures
        shuffled(s, state).0.to_multiset() == s.to_multiset(),
        shuffled(s, state).0.len() == s.len(),
{
    if s.len() > 1 {
        lemma_passes_keep_elements(s, state, (s.len() - 1) as nat);
    }
}

/// Shuffles `v` in place with numbers drawn from `rng`.
pub fn shuffle<T>(v: &mut [T], rng: &mut Rand)
    ensures
        (final(v)@, final(rng)@) == shuffled(old(v)@, old(rng)@),
        final(v)@.to_multiset() == old(v)@.to_multiset(),
{
    proof {
        lemma_shuffle_is_permutation(old(v)@, old(rng)@);
    }
    let n = v.len();
    if n <= 1 {
        return;
    }
    let mut i: usize = n - 1;
    while i >= 1
        invariant
            n == old(v)@.len(),
            n > 1,
            i < n,
            v@.len() == n,
            shuffled(old(v)@, old(rng)@) == shuffle_passes(v@, rng@, i as nat),
        decreases i,
    {
        let j = rng.next() % (i + 1);
        slice_swap(v, i, j);
        i -= 1;
    }
}


// ---------------------------------------------------------------------
// Lines of a word list
// ---------------------------------------------------------------------

/// The pieces of `s` between its newlines, in order (one more piece than
/// there are newlines).
pub open spec fn newline_pieces(s: Seq<char>) -> Seq<Seq<char>>
    decreases s.len(),
{
    if s.len() == 0 {
        seq![Seq::<char>::empty()]
    } else {
        let before = newline_pieces(s.drop_last());
        if s.last() == '\n' {
            before.push(Seq::<char>::empty())
        } else {
            before.update(before.len() - 1, before.last().push(s.last()))
        }
    }
}

/// `line` without one trailing carriage return.
pub open spec fn strip_carriage_return(line: Seq<char>) -> Seq<char> {
    if line.len() > 0 && line.last() == '\r' {
        line.drop_last()
    } else {
        line
    }
}

/// The lines of `s`: split at `\n` or `\r\n`, without the line endings,
/// where the final line ending is optional.
pub open spec fn text_lines(s: Seq<char>) -> Seq<Seq<char>> {
    let pieces = newline_pieces(s);
    let ended = pieces.take(pieces.len() - 1).map_values(|p: Seq<char>| strip_carriage_return(p));
    if pieces.last().len() == 0 {
        ended
    } else {
        ended.push(pieces.last())
    }
}

/// The non-empty lines of `s`, in order.
pub open spec fn non_empty_text_lines(s: Seq<char>) -> Seq<Seq<char>> {
    text_lines(s).filter(|l: Seq<char>| l.len() > 0)
}

/// The views of a list of strings.
pub open spec fn string_views(v: Seq<String>) -> Seq<Seq<char>> {
    v.map_values(|s: String| s@)
}

/// Calls `str::lines`, which splits at `\n` and `\r\n`, drops the line
/// endings and treats the final line ending as optional; the contract states
/// that documented behaviour as `text_lines`.
#[verifier::external_body]
fn str_lines(s: &str) -> (res: Vec<String>)
    ensures
        string_views(res@) == text_lines(s@),
{
    s.lines().map(|l| l.to_string()).collect()
}

/// The non-empty lines of a word list: its words.
pub fn non_empty_lines(content: &str) -> (res: Vec<String>)
    ensures
        string_views(res@) == non_empty_text_lines(content@),
{
    let lines = str_lines(content);
    let ghost all = string_views(lines@);
    let mut res: Vec<String> = Vec::new();
    let mut i: usize = 0;
    while i < lines.len()
        invariant
            i <= lines.len(),
            all == string_views(lines@),
            all == text_lines(content@),
            string_views(res@) == all.take(i as int).filter(|l: Seq<char>| l.len() > 0),
        decreases lines.len() - i,
    {
        reveal_with_fuel(Seq::<_>::filter, 1);
        let line = lines[i].clone();
        assert(all.take(i + 1).drop_last() =~= all.take(i as int));
        if !line.as_str().is_empty() {
            res.push(line);
            assert(string_views(res@) =~= all.take(i + 1).filter(|l: Seq<char>| l.len() > 0));
        } else {
            assert(string_views(res@) =~= all.take(i + 1).filter(|l: Seq<char>| l.len() > 0));
        }
        i += 1;
    }
    assert(all.take(lines.len() as int) =~= all);
    res
}

// ---------------------------------------------------------------------
// The store
// ---------------------------------------------------------------------

#[verifier::external_type_specification]
#[verifier::external_body]
pub struct ExConnection(Connection);

#[verifier::external_type_specification]
#[verifier::external_body]
pub struct ExStatement<'conn>(Statement<'conn>);

#[verifier::external_type_specification]
#[verifier::external_body]
pub struct ExSqlError(rusqlite::Error);

#[verifier::external_type_specification]
#[verifier::external_body]
pub struct ExSystemTime(SystemTime);

/// Why the store could not answer.
#[derive(Debug, Clone, PartialEq, Eq)]
pub enum WordsetError {
    /// The database refused a statement; the text is its message.
    Database(String),
    /// The system clock reads a time before the Unix epoch, so no seed can
    /// be drawn from it.
    ClockBeforeEpoch,
}

/// A word list to load: a name, a language and the list's text, one word
/// per line.
#[derive(Debug, Clone)]
pub struct WordFile {
    pub name: String,
    pub language: String,
    pub content: String,
}

/// A word set and a time limit.
#[derive(Debug, Clone)]
pub struct Mode {
    pub word_set_name: String,
    pub time_seconds: u32,
}

// ---------------------------------------------------------------------
// The model of the store's tables
// ---------------------------------------------------------------------

/// A row of the `word_sets` table.
pub struct SetRow {
    pub id: int,
    pub name: Seq<char>,
    pub language: Seq<char>,
    pub word_count: int,
}

/// A row of the `words` table (its own id left out).
pub struct WordRow {
    pub set_id: int,
    pub word: Seq<char>,
}

/// A row of one of the store's two tables.
pub enum StoreRow {
    SetEntry(SetRow),
    WordEntry(WordRow),
}

/// The rows of the store's tables, in the order in which they were inserted.
pub uninterp spec fn store_rows(conn: Connection) -> Seq<StoreRow>;

/// The row id of the row that the connection inserted last.
pub uninterp spec fn store_last_rowid(conn: Connection) -> int;

/// The statement text that a prepared statement was made from.
pub uninterp spec fn statement_sql(stmt: Statement) -> Seq<char>;

/// The rows of the store that a prepared statement reads.
pub uninterp spec fn statement_rows(stmt: Statement) -> Seq<StoreRow>;

/// The rows of the `word_sets` table, in order.
pub open spec fn set_rows(rows: Seq<StoreRow>) -> Seq<SetRow>
    decreases rows.len(),
{
    if rows.len() == 0 {
        Seq::empty()
    } else {
        let before = set_rows(rows.drop_last());
        match rows.last() {
            StoreRow::SetEntry(s) => before.push(s),
            StoreRow::WordEntry(_) => before,
        }
    }
}

/// The words of the `words` table that belong to the set with id `id`, in
/// order.
pub open spec fn words_of(rows: Seq<StoreRow>, id: int) -> Seq<Seq<char>>
    decreases rows.len(),
{
    if rows.len() == 0 {
        Seq::empty()
    } else {
        let before = words_of(rows.drop_last(), id);
        match rows.last() {
            StoreRow::WordEntry(w) => if w.set_id == id {
                before.push(w.word)
            } else {
                before
            },
            StoreRow::SetEntry(_) => before,
        }
    }
}

/// The number of set rows with id `id` and name `name`.
pub open spec fn matching_sets(sets: Seq<SetRow>, id: int, name: Seq<char>) -> nat
    decreases sets.len(),
{
    if sets.len() == 0 {
        0
    } else {
        matching_sets(sets.drop_last(), id, name) + if sets.last().id == id && sets.last().name
            == name {
            1nat
        } else {
            0nat
        }
    }
}

/// The join of the word rows of `rows` with the set rows `sets` named
/// `name`: each word once for each matching set row.
pub open spec fn join_from(rows: Seq<StoreRow>, sets: Seq<SetRow>, name: Seq<char>) -> Seq<
    Seq<char>,
>
    decreases rows.len(),
{
    if rows.len() == 0 {
        Seq::empty()
    } else {
        let before = join_from(rows.drop_last(), sets, name);
        match rows.last() {
            StoreRow::WordEntry(w) => before + Seq::new(
                matching_sets(sets, w.set_id, name),
                |_i: int| w.word,
            ),
            StoreRow::SetEntry(_) => before,
        }
    }
}

/// The words that joining the `words` table with the sets named `name`
/// gives.
pub open spec fn joined_words(rows: Seq<StoreRow>, name: Seq<char>) -> Seq<Seq<char>> {
    join_from(rows, set_rows(rows), name)
}

/// `a` comes before `b` in the order of their UTF-8 bytes, which is the
/// order of their code points.
pub open spec fn text_lt(a: Seq<char>, b: Seq<char>) -> bool
    decreases a.len(),
{
    if a.len() == 0 {
        b.len() > 0
    } else if b.len() == 0 {
        false
    } else if a[0] != b[0] {
        (a[0] as u32) < (b[0] as u32)
    } else {
        text_lt(a.drop_first(), b.drop_first())
    }
}

/// `a` may come before `b` when ordering by language, then by word count.
pub open spec fn set_row_le(a: SetRow, b: SetRow) -> bool {
    text_lt(a.language, b.language) || (a.language == b.language && a.word_count
        <= b.word_count)
}

/// `names` are the names of `sets`, ordered by language, then by word
/// count (the order of ties is left open).
pub open spec fn names_in_order(names: Seq<Seq<char>>, sets: Seq<SetRow>) -> bool {
    exists|order: Seq<SetRow>|
        {
            &&& #[trigger] order.to_multiset() == sets.to_multiset()
            &&& forall|i: int, j: int|
                0 <= i < j < order.len() ==> set_row_le(order[i], order[j])
            &&& names == order.map_values(|s: SetRow| s.name)
        }
}

/// No two set rows share an id or a name.
pub open spec fn keys_unique(sets: Seq<SetRow>) -> bool {
    forall|i: int, j: int|
        0 <= i < j < sets.len() ==> sets[i].id != sets[j].id && sets[i].name != sets[j].name
}

/// A word set as the store holds it.
pub struct WordSetView {
    pub name: Seq<char>,
    pub language: Seq<char>,
    pub word_count: int,
    pub words: Seq<Seq<char>>,
}

/// The word sets that the rows hold, in the order of their set rows.
pub open spec fn word_sets(rows: Seq<StoreRow>) -> Seq<WordSetView> {
    set_rows(rows).map_values(
        |s: SetRow|
            WordSetView {
                name: s.name,
                language: s.language,
                word_count: s.word_count,
                words: words_of(rows, s.id),
            },
    )
}

/// The words of the set named `name`, or none when there is no such set.
pub open spec fn words_named(sets: Seq<WordSetView>, name: Seq<char>) -> Seq<Seq<char>> {
    if exists|i: int| 0 <= i < sets.len() && sets[i].name == name {
        sets[choose|i: int| 0 <= i < sets.len() && sets[i].name == name].words
    } else {
        Seq::empty()
    }
}

/// The word set that a word list makes.
pub open spec fn file_view(f: WordFile) -> WordSetView {
    WordSetView {
        name: f.name@,
        language: f.language@,
        word_count: (non_empty_text_lines(f.content@).len() as i64) as int,
        words: non_empty_text_lines(f.content@),
    }
}

/// The word sets that a list of word lists makes.
pub open spec fn file_views(files: Seq<WordFile>) -> Seq<WordSetView> {
    files.map_values(|f: WordFile| file_view(f))
}

/// The word rows of `words` in the set with id `id`.
pub open spec fn word_rows(id: int, words: Seq<Seq<char>>) -> Seq<StoreRow> {
    words.map_values(|w: Seq<char>| StoreRow::WordEntry(WordRow { set_id: id, word: w }))
}

/// The rows that loading a word list under the set id `id` inserts.
pub open spec fn file_rows(f: WordFile, id: int) -> Seq<StoreRow> {
    seq![
        StoreRow::SetEntry(
            SetRow {
                id,
                name: f.name@,
                language: f.language@,
                word_count: (non_empty_text_lines(f.content@).len() as i64) as int,
            },
        ),
    ] + word_rows(id, non_empty_text_lines(f.content@))
}

/// The rows that loading `files` under the set ids `ids` inserts.
pub open spec fn seeded_rows(files: Seq<WordFile>, ids: Seq<int>) -> Seq<StoreRow>
    decreases files.len(),
{
    if files.len() == 0 {
        Seq::empty()
    } else {
        seeded_rows(files.drop_last(), ids.drop_last()) + file_rows(files.last(), ids.last())
    }
}

/// No two ids are equal.
pub open spec fn distinct_ids(ids: Seq<int>) -> bool {
    forall|i: int, j: int| 0 <= i < j < ids.len() ==> ids[i] != ids[j]
}

pub open spec fn create_tables_sql() -> Seq<char> {
    "CREATE TABLE IF NOT EXISTS word_sets (
                id INTEGER PRIMARY KEY,
                name TEXT NOT NULL UNIQUE,
                language TEXT NOT NULL,
                word_count INTEGER NOT NULL
            );
            CREATE TABLE IF NOT EXISTS words (
                id INTEGER PRIMARY KEY,
                word_set_id INTEGER NOT NULL,
                word TEXT NOT NULL,
                FOREIGN KEY (word_set_id) REFERENCES word_sets(id)
            );
            CREATE INDEX IF NOT EXISTS idx_words_word_set ON words(word_set_id);"@
}

pub open spec fn count_sets_sql() -> Seq<char> {
    "SELECT COUNT(*) FROM word_sets"@
}

pub open spec fn insert_set_sql() -> Seq<char> {
    "INSERT INTO word_sets (name, language, word_count) VALUES (?1, ?2, ?3)"@
}

pub open spec fn insert_word_sql() -> Seq<char> {
    "INSERT INTO words (word_set_id, word) VALUES (?1, ?2)"@
}

pub open spec fn select_names_sql() -> Seq<char> {
    "SELECT name FROM word_sets ORDER BY language, word_count"@
}

pub open spec fn select_words_sql() -> Seq<char> {
    "SELECT w.word FROM words w
             JOIN word_sets ws ON w.word_set_id = ws.id
             WHERE ws.name = ?1"@
}

// ---------------------------------------------------------------------
// Calls into rusqlite
// ---------------------------------------------------------------------

/// Calls `Connection::open_in_memory`: a new in-memory database holds no
/// rows.
#[verifier::external_body]
fn open_in_memory() -> (res: Result<Connection, rusqlite::Error>)
    ensures
        res matches Ok(c) ==> store_rows(c) == Seq::<StoreRow>::empty(),
{
    Connection::open_in_memory()
}

/// Calls `Connection::execute_batch` with the statements that create the
/// tables and the index if they are missing; when they succeed, no row is
/// added or removed.
#[verifier::external_body]
fn execute_batch(conn: &mut Connection, sql: &str) -> (res: Result<(), rusqlite::Error>)
    requires
        sql@ == create_tables_sql(),
    ensures
        res is Ok ==> store_rows(*final(conn)) == store_rows(*old(conn)),
{
    conn.execute_batch(sql)
}

/// Calls `Connection::query_row` on the statement that counts the set rows,
/// and reads the first column: the number of set rows.
#[verifier::external_body]
fn query_integer(conn: &Connection, sql: &str) -> (res: Result<i64, rusqlite::Error>)
    requires
        sql@ == count_sets_sql(),
    ensures
        res matches Ok(n) ==> n == set_rows(store_rows(*conn)).len(),
{
    conn.query_row(sql, [], |row| row.get(0))
}

/// Calls `Connection::execute` on the statement that inserts a set row.
/// When it succeeds, a set row with these values is appended under a row id
/// that no set row had, which becomes the last inserted row id; the name is
/// one that no set row had (the column is `UNIQUE`).
#[verifier::external_body]
fn insert_set_row(conn: &mut Connection, sql: &str, name: &str, language: &str, word_count: i64) -> (res:
    Result<usize, rusqlite::Error>)
    requires
        sql@ == insert_set_sql(),
    ensures
        res is Ok ==> exists|id: int|
            {
                &&& forall|k: int|
                    0 <= k < set_rows(store_rows(*old(conn))).len() ==> #[trigger] set_rows(
                        store_rows(*old(conn)),
                    )[k].id != id && set_rows(store_rows(*old(conn)))[k].name != name@
                &&& store_rows(*final(conn)) == store_rows(*old(conn)).push(
                    StoreRow::SetEntry(SetRow { id, name: name@, language: language@, word_count: word_count as int }),
                )
                &&& store_last_rowid(*final(conn)) == id
            },
{
    conn.execute(sql, (name, language, word_count))
}

/// Calls `Connection::execute` on the statement that inserts a word row.
/// When it succeeds, a word row with these values is appended.
#[verifier::external_body]
fn insert_word_row(conn: &mut Connection, sql: &str, set_id: i64, word: &str) -> (res: Result<
    usize,
    rusqlite::Error,
>)
    requires
        sql@ == insert_word_sql(),
    ensures
        res is Ok ==> store_rows(*final(conn)) == store_rows(*old(conn)).push(
            StoreRow::WordEntry(WordRow { set_id: set_id as int, word: word@ }),
        ),
{
    conn.execute(sql, (set_id, word))
}

/// Calls `Connection::last_insert_rowid`: the row id of the row inserted
/// last.
#[verifier::external_body]
fn last_insert_rowid(conn: &Connection) -> (res: i64)
    ensures
        res as int == store_last_rowid(*conn),
{
    conn.last_insert_rowid()
}

/// Calls `Connection::prepare`: the statement reads the connection's rows.
#[verifier::external_body]
fn prepare<'conn>(conn: &'conn Connection, sql: &str) -> (res: Result<
    Statement<'conn>,
    rusqlite::Error,
>)
    ensures
        res matches Ok(st) ==> statement_sql(st) == sql@ && statement_rows(st) == store_rows(
            *conn,
        ),
{
    conn.prepare(sql)
}

/// Calls `Statement::query_map` on the statement that selects the set
/// names ordered by language, then by word count, and collects the names.
#[verifier::external_body]
fn query_set_names(stmt: &mut Statement) -> (res: Result<Vec<String>, rusqlite::Error>)
    requires
        statement_sql(*old(stmt)) == select_names_sql(),
    ensures
        res matches Ok(v) ==> names_in_order(
            string_views(v@),
            set_rows(statement_rows(*old(stmt))),
        ),
{
    stmt.query_map([], |row| row.get(0))?.collect()
}

/// Calls `Statement::query_map` on the statement that joins the words with
/// the set named `name`, and collects the words, in an order left open.
#[verifier::external_body]
fn query_set_words(stmt: &mut Statement, name: &str) -> (res: Result<Vec<String>, rusqlite::Error>)
    requires
        statement_sql(*old(stmt)) == select_words_sql(),
    ensures
        res matches Ok(v) ==> string_views(v@).to_multiset() == joined_words(
            statement_rows(*old(stmt)),
            name@,
        ).to_multiset(),
{
    stmt.query_map([name], |row| row.get(0))?.collect()
}

/// The message of a database error, through its `Display` impl; the text is
/// not described here.
#[verifier::external_body]
fn sql_error_message(err: &rusqlite::Error) -> String {
    err.to_string()
}

/// Calls `SystemTime::now`; the time is not described here.
#[verifier::external_body]
fn system_time_now() -> SystemTime {
    SystemTime::now()
}

/// Calls `SystemTime::duration_since` with the Unix epoch, which fails when
/// the time lies before the epoch; neither outcome is described here.
#[verifier::external_body]
fn duration_since_unix_epoch(t: &SystemTime) -> Option<Duration> {
    t.duration_since(std::time::UNIX_EPOCH).ok()
}

/// Calls `Duration::as_nanos`; the number is not described here.
#[verifier::external_body]
fn duration_as_nanos(d: &Duration) -> u128 {
    d.as_nanos()
}

/// Feeds `value` to the hasher through `Hash::hash`; the hasher's new state
/// is not described here.
#[verifier::external_body]
fn hash_u128(value: u128, hasher: &mut DefaultHasher) {
    std::hash::Hash::hash(&value, hasher)
}

/// The database error as an error of the store.
fn db_error(err: rusqlite::Error) -> (res: WordsetError)
    ensures
        res is Database,
{
    WordsetError::Database(sql_error_message(&err))
}

/// A seed drawn from the clock: the hash of the nanoseconds since the Unix
/// epoch. `None` when the clock reads a time before the epoch.
pub fn clock_seed() -> (res: Option<usize>) {
    let now = system_time_now();
    match duration_since_unix_epoch(&now) {
        Some(d) => {
            let nanos = duration_as_nanos(&d);
            let mut hasher = DefaultHasher::new();
            hash_u128(nanos, &mut hasher);
            let h = hasher.finish();
            Some(h as usize)
        },
        None => None,
    }
}

proof fn lemma_swap_views(s: Seq<String>, i: int, j: int)
    requires
        0 <= i < s.len(),
        0 <= j < s.len(),
    ensures
        seq_swap(string_views(s), i, j) == string_views(seq_swap(s, i, j)),
{
    assert(seq_swap(string_views(s), i, j) =~= string_views(seq_swap(s, i, j)));
}

proof fn lemma_passes_views(s: Seq<String>, state: usize, i: nat)
    requires
        i < s.len(),
    ensures
        shuffle_passes(string_views(s), state, i).0 == string_views(shuffle_passes(s, state, i).0),
    decreases i,
{
    if i > 0 {
        let next = lcg_step(state);
        let j = ((next >> 16) as nat) % (i + 1);
        lemma_swap_views(s, i as int, j as int);
        lemma_passes_views(seq_swap(s, i as int, j as int), next, (i - 1) as nat);
    }
}

/// Shuffling commutes with taking the strings' views.
pub proof fn lemma_shuffle_views(s: Seq<String>, state: usize)
    ensures
        shuffled(string_views(s), state).0 == string_views(shuffled(s, state).0),
{
    if s.len() > 1 {
        lemma_passes_views(s, state, (s.len() - 1) as nat);
    }
}

/// `words` shuffled from generator state `seed`.
pub fn shuffled_words(words: Vec<String>, seed: usize) -> (res: Vec<String>)
    ensures
        res@ == shuffled(words@, seed).0,
        res@.to_multiset() == words@.to_multiset(),
        string_views(res@).to_multiset() == string_views(words@).to_multiset(),
{
    let ghost input = words@;
    let mut words = words;
    let mut rng = seed_rng(seed);
    shuffle(words.as_mut_slice(), &mut rng);
    proof {
        lemma_shuffle_views(input, seed);
        lemma_shuffle_is_permutation(string_views(input), seed);
    }
    words
}

// ---------------------------------------------------------------------
// Facts about the model
// ---------------------------------------------------------------------

proof fn lemma_rows_concat(a: Seq<StoreRow>, b: Seq<StoreRow>, id: int)
    ensures
        set_rows(a + b) == set_rows(a) + set_rows(b),
        words_of(a + b, id) == words_of(a, id) + words_of(b, id),
    decreases b.len(),
{
    if b.len() == 0 {
        assert(a + b =~= a);
        assert(set_rows(a) + set_rows(b) =~= set_rows(a));
        assert(words_of(a, id) + words_of(b, id) =~= words_of(a, id));
    } else {
        lemma_rows_concat(a, b.drop_last(), id);
        assert((a + b).drop_last() =~= a + b.drop_last());
        assert((a + b).last() == b.last());
        assert(set_rows(a + b) =~= set_rows(a) + set_rows(b));
        assert(words_of(a + b, id) =~= words_of(a, id) + words_of(b, id));
    }
}

proof fn lemma_word_rows(set_id: int, ws: Seq<Seq<char>>, id: int)
    ensures
        set_rows(word_rows(set_id, ws)) == Seq::<SetRow>::empty(),
        words_of(word_rows(set_id, ws), id) == if id == set_id {
            ws
        } else {
            Seq::<Seq<char>>::empty()
        },
    decreases ws.len(),
{
    if ws.len() > 0 {
        lemma_word_rows(set_id, ws.drop_last(), id);
        assert(word_rows(set_id, ws).drop_last() =~= word_rows(set_id, ws.drop_last()));
        assert(ws.drop_last().push(ws.last()) =~= ws);
    } else {
        assert(word_rows(set_id, ws) =~= Seq::<StoreRow>::empty());
        assert(ws =~= Seq::<Seq<char>>::empty());
    }
}

/// The set row that loading `files[i]` under `ids[i]` inserts.
pub open spec fn seeded_set_row(files: Seq<WordFile>, ids: Seq<int>, i: int) -> SetRow {
    SetRow {
        id: ids[i],
        name: files[i].name@,
        language: files[i].language@,
        word_count: (non_empty_text_lines(files[i].content@).len() as i64) as int,
    }
}

proof fn lemma_seeded_rows(files: Seq<WordFile>, ids: Seq<int>)
    requires
        ids.len() == files.len(),
    ensures
        set_rows(seeded_rows(files, ids)) == Seq::new(
            files.len(),
            |i: int| seeded_set_row(files, ids, i),
        ),
        forall|x: int|
            (forall|i: int| 0 <= i < ids.len() ==> ids[i] != x) ==> #[trigger] words_of(
                seeded_rows(files, ids),
                x,
            ) == Seq::<Seq<char>>::empty(),
        distinct_ids(ids) ==> forall|i: int|
            0 <= i < files.len() ==> #[trigger] words_of(seeded_rows(files, ids), ids[i])
                == non_empty_text_lines(files[i].content@),
    decreases files.len(),
{
    if files.len() == 0 {
        assert(set_rows(seeded_rows(files, ids)) =~= Seq::new(
            files.len(),
            |i: int| seeded_set_row(files, ids, i),
        ));
    } else {
        let n = files.len() - 1;
        let pf = files.drop_last();
        let pi = ids.drop_last();
        lemma_seeded_rows(pf, pi);
        let prev = seeded_rows(pf, pi);
        let f = files.last();
        let id = ids.last();
        let fr = file_rows(f, id);
        let head = seq![
            StoreRow::SetEntry(
                SetRow {
                    id,
                    name: f.name@,
                    language: f.language@,
                    word_count: (non_empty_text_lines(f.content@).len() as i64) as int,
                },
            ),
        ];
        let wr = word_rows(id, non_empty_text_lines(f.content@));
        assert(head.drop_last() =~= Seq::<StoreRow>::empty());
        assert forall|x: int| #[trigger] words_of(fr, x) == if x == id {
            non_empty_text_lines(f.content@)
        } else {
            Seq::<Seq<char>>::empty()
        } by {
            lemma_rows_concat(head, wr, x);
            lemma_word_rows(id, non_empty_text_lines(f.content@), x);
            assert(set_rows(head.drop_last()) =~= Seq::<SetRow>::empty());
            assert(words_of(head.drop_last(), x) =~= Seq::<Seq<char>>::empty());
            assert(words_of(head, x) =~= Seq::<Seq<char>>::empty());
            assert(Seq::<Seq<char>>::empty() + words_of(wr, x) =~= words_of(wr, x));
        }
        lemma_rows_concat(head, wr, id);
        lemma_word_rows(id, non_empty_text_lines(f.content@), id);
        assert(set_rows(head.drop_last()) =~= Seq::<SetRow>::empty());
        assert(set_rows(head) =~= seq![head[0]->SetEntry_0]);
        assert(set_rows(fr) =~= seq![seeded_set_row(files, ids, n as int)]);
        lemma_rows_concat(prev, fr, id);
        assert(set_rows(seeded_rows(files, ids)) =~= Seq::new(
            files.len(),
            |i: int| seeded_set_row(files, ids, i),
        ));
        assert forall|x: int|
            (forall|i: int| 0 <= i < ids.len() ==> ids[i] != x) implies #[trigger] words_of(
            seeded_rows(files, ids),
            x,
        ) == Seq::<Seq<char>>::empty() by {
            lemma_rows_concat(prev, fr, x);
            assert(ids[n as int] != x);
            assert forall|i: int| 0 <= i < pi.len() implies pi[i] != x by {
                assert(pi[i] == ids[i]);
            }
            assert(words_of(prev, x) == Seq::<Seq<char>>::empty());
            assert(words_of(fr, x) == Seq::<Seq<char>>::empty());
            assert(words_of(prev, x) + words_of(fr, x) =~= Seq::<Seq<char>>::empty());
        }
        if distinct_ids(ids) {
            assert(distinct_ids(pi)) by {
                assert forall|i: int, j: int| 0 <= i < j < pi.len() implies pi[i] != pi[j] by {
                    assert(pi[i] == ids[i] && pi[j] == ids[j]);
                }
            }
            assert forall|i: int| 0 <= i < files.len() implies #[trigger] words_of(
                seeded_rows(files, ids),
                ids[i],
            ) == non_empty_text_lines(files[i].content@) by {
                lemma_rows_concat(prev, fr, ids[i]);
                if i == n {
                    assert forall|k: int| 0 <= k < pi.len() implies pi[k] != ids[i] by {
                        assert(pi[k] == ids[k]);
                    }
                    assert(words_of(prev, ids[i]) == Seq::<Seq<char>>::empty());
                    assert(Seq::<Seq<char>>::empty() + words_of(fr, ids[i]) =~= words_of(
                        fr,
                        ids[i],
                    ));
                } else {
                    assert(ids[i] != id);
                    assert(pi[i] == ids[i]);
                    assert(pf[i] == files[i]);
                    assert(words_of(prev, ids[i]) == non_empty_text_lines(files[i].content@));
                    assert(words_of(prev, ids[i]) + Seq::<Seq<char>>::empty() =~= words_of(
                        prev,
                        ids[i],
                    ));
                }
            }
        }
    }
}

/// Loading `files` under distinct set ids makes exactly their word sets.
pub proof fn lemma_seeded_word_sets(files: Seq<WordFile>, ids: Seq<int>)
    requires
        ids.len() == files.len(),
        distinct_ids(ids),
    ensures
        word_sets(seeded_rows(files, ids)) == file_views(files),
{
    lemma_seeded_rows(files, ids);
    let rows = seeded_rows(files, ids);
    assert forall|i: int| 0 <= i < files.len() implies #[trigger] word_sets(rows)[i] == file_views(
        files,
    )[i] by {
        assert(set_rows(rows)[i] == seeded_set_row(files, ids, i));
        assert(words_of(rows, ids[i]) == non_empty_text_lines(files[i].content@));
    }
    assert(word_sets(rows) =~= file_views(files));
}

proof fn lemma_keys_unique_prefix(sets: Seq<SetRow>)
    requires
        keys_unique(sets),
        sets.len() > 0,
    ensures
        keys_unique(sets.drop_last()),
{
    assert forall|i: int, j: int| 0 <= i < j < sets.drop_last().len() implies sets.drop_last()[i].id
        != sets.drop_last()[j].id && sets.drop_last()[i].name != sets.drop_last()[j].name by {
        assert(sets.drop_last()[i] == sets[i] && sets.drop_last()[j] == sets[j]);
    }
}

proof fn lemma_matching_sets(sets: Seq<SetRow>, id: int, name: Seq<char>)
    requires
        keys_unique(sets),
    ensures
        (forall|k: int| 0 <= k < sets.len() ==> sets[k].name != name) ==> matching_sets(
            sets,
            id,
            name,
        ) == 0,
        forall|k: int|
            0 <= k < sets.len() && sets[k].name == name ==> matching_sets(sets, id, name) == if sets[k].id
                == id {
                1nat
            } else {
                0nat
            },
    decreases sets.len(),
{
    if sets.len() > 0 {
        let p = sets.drop_last();
        lemma_keys_unique_prefix(sets);
        lemma_matching_sets(p, id, name);
        assert forall|k: int| 0 <= k < p.len() implies p[k] == sets[k] by {}
        if forall|k: int| 0 <= k < sets.len() ==> sets[k].name != name {
            assert(sets.last().name != name);
        }
        assert forall|k: int| 0 <= k < sets.len() && sets[k].name == name implies matching_sets(
            sets,
            id,
            name,
        ) == if sets[k].id == id {
            1nat
        } else {
            0nat
        } by {
            if k == sets.len() - 1 {
                assert forall|m: int| 0 <= m < p.len() implies p[m].name != name by {
                    assert(p[m] == sets[m]);
                }
            } else {
                assert(p[k] == sets[k]);
                assert(sets.last().name != name);
            }
        }
    }
}

proof fn lemma_join_words(rows: Seq<StoreRow>, sets: Seq<SetRow>, name: Seq<char>)
    requires
        keys_unique(sets),
    ensures
        (forall|k: int| 0 <= k < sets.len() ==> sets[k].name != name) ==> join_from(
            rows,
            sets,
            name,
        ) == Seq::<Seq<char>>::empty(),
        forall|k: int|
            0 <= k < sets.len() && sets[k].name == name ==> join_from(rows, sets, name)
                == #[trigger] words_of(rows, sets[k].id),
    decreases rows.len(),
{
    if rows.len() > 0 {
        lemma_join_words(rows.drop_last(), sets, name);
        match rows.last() {
            StoreRow::WordEntry(w) => {
                lemma_matching_sets(sets, w.set_id, name);
                let extra = Seq::new(matching_sets(sets, w.set_id, name), |_i: int| w.word);
                if forall|k: int| 0 <= k < sets.len() ==> sets[k].name != name {
                    assert(extra =~= Seq::<Seq<char>>::empty());
                    assert(join_from(rows.drop_last(), sets, name) + extra =~= Seq::<
                        Seq<char>,
                    >::empty());
                }
                assert forall|k: int| 0 <= k < sets.len() && sets[k].name == name implies join_from(
                    rows,
                    sets,
                    name,
                ) == #[trigger] words_of(rows, sets[k].id) by {
                    if sets[k].id == w.set_id {
                        assert(extra =~= seq![w.word]);
                        assert(join_from(rows.drop_last(), sets, name) + extra =~= words_of(
                            rows.drop_last(),
                            sets[k].id,
                        ).push(w.word));
                    } else {
                        assert(extra =~= Seq::<Seq<char>>::empty());
                        assert(join_from(rows.drop_last(), sets, name) + extra =~= words_of(
                            rows.drop_last(),
                            sets[k].id,
                        ));
                    }
                }
            },
            StoreRow::SetEntry(_) => {
                assert forall|k: int| 0 <= k < sets.len() && sets[k].name == name implies join_from(
                    rows,
                    sets,
                    name,
                ) == #[trigger] words_of(rows, sets[k].id) by {
                    assert(join_from(rows, sets, name) == join_from(rows.drop_last(), sets, name));
                    assert(words_of(rows, sets[k].id) == words_of(rows.drop_last(), sets[k].id));
                }
            },
        }
    } else {
        assert forall|k: int| 0 <= k < sets.len() && sets[k].name == name implies join_from(
            rows,
            sets,
            name,
        ) == #[trigger] words_of(rows, sets[k].id) by {}
    }
}

/// With set ids and names unique, joining the words with the set named
/// `name` gives the words of that set, or none when there is no such set.
pub proof fn lemma_joined_words_named(rows: Seq<StoreRow>, name: Seq<char>)
    requires
        keys_unique(set_rows(rows)),
    ensures
        joined_words(rows, name) == words_named(word_sets(rows), name),
{
    let sets = set_rows(rows);
    let views = word_sets(rows);
    lemma_join_words(rows, sets, name);
    if exists|i: int| 0 <= i < views.len() && views[i].name == name {
        let i = choose|i: int| 0 <= i < views.len() && views[i].name == name;
        assert(views[i].name == sets[i].name);
        assert(views[i].words == words_of(rows, sets[i].id));
    } else {
        assert forall|k: int| 0 <= k < sets.len() implies sets[k].name != name by {
            assert(views[k].name == sets[k].name);
        }
    }
}

// ---------------------------------------------------------------------
// The store
// ---------------------------------------------------------------------

/// The word sets, held in an in-memory SQLite database.
#[derive(Debug)]
pub struct WordsetDb {
    conn: Connection,
}

impl WordsetDb {
    #[verifier::type_invariant]
    spec fn keys_are_unique(self) -> bool {
        keys_unique(set_rows(store_rows(self.conn)))
    }

    /// The rows of the store's tables.
    pub closed spec fn rows(&self) -> Seq<StoreRow> {
        store_rows(self.conn)
    }

    /// The word sets of the store, in the order they were loaded.
    pub open spec fn sets(&self) -> Seq<WordSetView> {
        word_sets(self.rows())
    }

    /// Opens an empty database, creates its tables and loads `word_files`:
    /// on success the store holds exactly their word sets, each with the
    /// non-empty lines of its list as its words.
    pub fn new(word_files: &Vec<WordFile>) -> (res: Result<Self, WordsetError>)
        ensures
            res matches Ok(db) ==> db.sets() == file_views(word_files@),
            res matches Err(e) ==> e is Database,
    {
        let conn = match open_in_memory() {
            Ok(c) => c,
            Err(e) => return Err(db_error(e)),
        };
        let mut conn = conn;
        match Self::init_tables(&mut conn) {
            Ok(()) => {},
            Err(e) => return Err(e),
        }
        match Self::seed_data(&mut conn, word_files) {
            Ok(()) => {},
            Err(e) => return Err(e),
        }
        let ghost ids = choose|ids: Seq<int>|
            ids.len() == word_files@.len() && distinct_ids(ids) && store_rows(conn) == Seq::<
                StoreRow,
            >::empty() + seeded_rows(word_files@, ids);
        proof {
            lemma_seeded_rows(word_files@, ids);
            assert(Seq::<StoreRow>::empty() + seeded_rows(word_files@, ids) =~= seeded_rows(
                word_files@,
                ids,
            ));
        }
        let db = Self { conn };
        proof {
            assert(Seq::<StoreRow>::empty() + seeded_rows(word_files@, ids) =~= seeded_rows(
                word_files@,
                ids,
            ));
            lemma_seeded_word_sets(word_files@, ids);
        }
        Ok(db)
    }

    /// Creates the tables and the index when they are missing; the rows stay.
    fn init_tables(conn: &mut Connection) -> (res: Result<(), WordsetError>)
        ensures
            res is Ok ==> store_rows(*final(conn)) == store_rows(*old(conn)),
            res matches Err(e) ==> e is Database,
    {
        match execute_batch(
            conn,
            "CREATE TABLE IF NOT EXISTS word_sets (
                id INTEGER PRIMARY KEY,
                name TEXT NOT NULL UNIQUE,
                language TEXT NOT NULL,
                word_count INTEGER NOT NULL
            );
            CREATE TABLE IF NOT EXISTS words (
                id INTEGER PRIMARY KEY,
                word_set_id INTEGER NOT NULL,
                word TEXT NOT NULL,
                FOREIGN KEY (word_set_id) REFERENCES word_sets(id)
            );
            CREATE INDEX IF NOT EXISTS idx_words_word_set ON words(word_set_id);",
        ) {
            Ok(()) => Ok(()),
            Err(e) => Err(db_error(e)),
        }
    }

    /// Loads each word list, unless word sets are there already: a set row
    /// with the number of its words, then a word row for each of its
    /// non-empty lines, under the new set's row id.
    fn seed_data(conn: &mut Connection, word_files: &Vec<WordFile>) -> (res: Result<
        (),
        WordsetError,
    >)
        ensures
            res is Ok && set_rows(store_rows(*old(conn))).len() > 0 ==> store_rows(*final(conn))
                == store_rows(*old(conn)),
            res is Ok && set_rows(store_rows(*old(conn))).len() == 0 ==> keys_unique(
                set_rows(store_rows(*final(conn))),
            ),
            res is Ok && set_rows(store_rows(*old(conn))).len() == 0 ==> exists|ids: Seq<int>|
                ids.len() == word_files@.len() && distinct_ids(ids) && #[trigger] store_rows(
                    *final(conn),
                ) == store_rows(*old(conn)) + seeded_rows(word_files@, ids),
            res matches Err(e) ==> e is Database,
    {
        let count = match query_integer(conn, "SELECT COUNT(*) FROM word_sets") {
            Ok(c) => c,
            Err(e) => return Err(db_error(e)),
        };
        if count > 0 {
            return Ok(());
        }
        let ghost start = store_rows(*conn);
        let ghost files = word_files@;
        let ghost mut ids: Seq<int> = Seq::empty();
        assert(start + seeded_rows(files.take(0), ids) =~= start);
        let mut f: usize = 0;
        while f < word_files.len()
            invariant
                files == word_files@,
                f <= word_files.len(),
                set_rows(start).len() == 0,
                ids.len() == f,
                distinct_ids(ids),
                store_rows(*conn) == start + seeded_rows(files.take(f as int), ids),
                keys_unique(set_rows(store_rows(*conn))),
            decreases word_files.len() - f,
        {
            let ghost before = store_rows(*conn);
            let file = &word_files[f];
            let words = non_empty_lines(file.content.as_str());
            let word_count = words.len() as i64;
            match insert_set_row(
                conn,
                "INSERT INTO word_sets (name, language, word_count) VALUES (?1, ?2, ?3)",
                file.name.as_str(),
                file.language.as_str(),
                word_count,
            ) {
                Ok(_) => {},
                Err(e) => return Err(db_error(e)),
            }
            let word_set_id = last_insert_rowid(conn);
            let ghost id = word_set_id as int;
            let ghost lines = non_empty_text_lines(file.content@);
            let ghost set_row = SetRow {
                id,
                name: file.name@,
                language: file.language@,
                word_count: word_count as int,
            };
            proof {
                lemma_seeded_rows(files.take(f as int), ids);
                lemma_rows_concat(start, seeded_rows(files.take(f as int), ids), 0);
                assert(set_rows(before) =~= Seq::new(
                    f as nat,
                    |i: int| seeded_set_row(files.take(f as int), ids, i),
                ));
                assert forall|k: int| 0 <= k < ids.len() implies ids[k] != id by {
                    assert(set_rows(before)[k].id == ids[k]);
                }
                assert(store_rows(*conn) == before.push(StoreRow::SetEntry(set_row)));
                assert(store_rows(*conn).drop_last() =~= before);
                assert(set_rows(store_rows(*conn)) == set_rows(before).push(set_row));
                assert forall|k: int| 0 <= k < set_rows(before).len() implies #[trigger] set_rows(
                    before,
                )[k].id != id && set_rows(before)[k].name != file.name@ by {}
                assert(keys_unique(set_rows(store_rows(*conn))));
                assert(store_rows(*conn) =~= before + seq![StoreRow::SetEntry(set_row)] + word_rows(
                    id,
                    lines.take(0),
                ));
            }
            let mut w: usize = 0;
            while w < words.len()
                invariant
                    w <= words.len(),
                    string_views(words@) == lines,
                    id == word_set_id as int,
                    set_rows(store_rows(*conn)) == set_rows(before).push(set_row),
                    keys_unique(set_rows(store_rows(*conn))),
                    store_rows(*conn) == before + seq![StoreRow::SetEntry(set_row)] + word_rows(
                        id,
                        lines.take(w as int),
                    ),
                decreases words.len() - w,
            {
                let ghost old_rows = store_rows(*conn);
                match insert_word_row(
                    conn,
                    "INSERT INTO words (word_set_id, word) VALUES (?1, ?2)",
                    word_set_id,
                    words[w].as_str(),
                ) {
                    Ok(_) => {},
                    Err(e) => return Err(db_error(e)),
                }
                proof {
                    assert(words[w as int]@ == lines[w as int]);
                    assert(word_rows(id, lines.take(w + 1)) =~= word_rows(
                        id,
                        lines.take(w as int),
                    ).push(StoreRow::WordEntry(WordRow { set_id: id, word: lines[w as int] })));
                    assert(store_rows(*conn) =~= before + seq![StoreRow::SetEntry(set_row)] + word_rows(
                        id,
                        lines.take(w + 1),
                    ));
                    assert(store_rows(*conn).drop_last() =~= old_rows);
                    assert(set_rows(store_rows(*conn)) == set_rows(old_rows));
                }
                w += 1;
            }
            proof {
                assert(lines.take(words.len() as int) =~= lines);
                assert(files.take(f + 1).drop_last() =~= files.take(f as int));
                assert(files.take(f + 1).last() == files[f as int]);
                assert(ids.push(id).drop_last() =~= ids);
                assert(set_row == SetRow {
                    id,
                    name: file.name@,
                    language: file.language@,
                    word_count: (lines.len() as i64) as int,
                });
                assert(seq![StoreRow::SetEntry(set_row)] + word_rows(id, lines) == file_rows(
                    files[f as int],
                    id,
                ));
                assert(seeded_rows(files.take(f + 1), ids.push(id)) == seeded_rows(
                    files.take(f as int),
                    ids,
                ) + file_rows(files[f as int], id));
                assert(store_rows(*conn) =~= start + seeded_rows(files.take(f + 1), ids.push(id)));
                assert forall|i: int, j: int|
                    0 <= i < j < ids.push(id).len() implies ids.push(id)[i] != ids.push(id)[j] by {
                    if j == ids.len() {
                        assert(ids.push(id)[i] == ids[i]);
                    } else {
                        assert(ids.push(id)[i] == ids[i] && ids.push(id)[j] == ids[j]);
                    }
                }
                ids = ids.push(id);
            }
            f += 1;
        }
        proof {
            assert(files.take(word_files.len() as int) =~= files);
        }
        Ok(())
    }

    /// The names of the word sets, ordered by language, then by word count.
    pub fn get_wordset_names(&self) -> (res: Result<Vec<String>, WordsetError>)
        ensures
            res matches Ok(v) ==> names_in_order(string_views(v@), set_rows(self.rows())),
            res matches Err(e) ==> e is Database,
    {
        let mut stmt = match prepare(
            &self.conn,
            "SELECT name FROM word_sets ORDER BY language, word_count",
        ) {
            Ok(s) => s,
            Err(e) => return Err(db_error(e)),
        };
        match query_set_names(&mut stmt) {
            Ok(names) => Ok(names),
            Err(e) => Err(db_error(e)),
        }
    }

    /// The words of the named word set, in an order left open; none when
    /// there is no such set.
    pub fn get_words(&self, wordset_name: &str) -> (res: Result<Vec<String>, WordsetError>)
        ensures
            res matches Ok(v) ==> string_views(v@).to_multiset() == words_named(
                self.sets(),
                wordset_name@,
            ).to_multiset(),
            res matches Err(e) ==> e is Database,
    {
        proof {
            use_type_invariant(self);
            lemma_joined_words_named(self.rows(), wordset_name@);
        }
        let mut stmt = match prepare(
            &self.conn,
            "SELECT w.word FROM words w
             JOIN word_sets ws ON w.word_set_id = ws.id
             WHERE ws.name = ?1",
        ) {
            Ok(s) => s,
            Err(e) => return Err(db_error(e)),
        };
        match query_set_words(&mut stmt, wordset_name) {
            Ok(words) => Ok(words),
            Err(e) => Err(db_error(e)),
        }
    }

    /// The words of the named word set, shuffled with a seed drawn from the
    /// clock: the set's words as the store lists them, put through the seeded
    /// shuffle. Which seed, and the order in which the store lists the words,
    /// are left open.
    pub fn get_shuffled_words(&self, wordset_name: &str) -> (res: Result<
        Vec<String>,
        WordsetError,
    >)
        ensures
            res matches Ok(v) ==> string_views(v@).to_multiset() == words_named(
                self.sets(),
                wordset_name@,
            ).to_multiset(),
            res matches Ok(v) ==> exists|listed: Seq<String>, seed: usize|
                #[trigger] shuffled(listed, seed).0 == v@ && string_views(listed).to_multiset()
                    == words_named(self.sets(), wordset_name@).to_multiset(),
            res matches Err(e) ==> (e is Database || e is ClockBeforeEpoch),
    {
        let words = match self.get_words(wordset_name) {
            Ok(w) => w,
            Err(e) => return Err(e),
        };
        let ghost listed = words@;
        match clock_seed() {
            Some(seed) => {
                let res = shuffled_words(words, seed);
                proof {
                    assert(shuffled(listed, seed).0 == res@);
                }
                Ok(res)
            },
            None => Err(WordsetError::ClockBeforeEpoch),
        }
    }

    /// The words of the quick-start word set, `en_1000`, shuffled with a seed
    /// drawn from the clock, as `get_shuffled_words` gives them.
    pub fn quick_start_words(&self) -> (res: Result<Vec<String>, WordsetError>)
        ensures
            res matches Ok(v) ==> string_views(v@).to_multiset() == words_named(
                self.sets(),
                "en_1000"@,
            ).to_multiset(),
            res matches Ok(v) ==> exists|listed: Seq<String>, seed: usize|
                #[trigger] shuffled(listed, seed).0 == v@ && string_views(listed).to_multiset()
                    == words_named(self.sets(), "en_1000"@).to_multiset(),
            res matches Err(e) ==> (e is Database || e is ClockBeforeEpoch),
    {
        self.get_shuffled_words("en_1000")
    }
}

/// Every word of a word list is a non-empty line of it.
pub proof fn lemma_words_are_nonempty_lines(s: Seq<char>)
    ensures
        forall|i: int|
            0 <= i < non_empty_text_lines(s).len() ==> #[trigger] non_empty_text_lines(s)[i].len()
                > 0 && text_lines(s).contains(non_empty_text_lines(s)[i]),
{
    let pred = |l: Seq<char>| l.len() > 0;
    assert forall|i: int|
        0 <= i < non_empty_text_lines(s).len() implies #[trigger] non_empty_text_lines(s)[i].len()
        > 0 && text_lines(s).contains(non_empty_text_lines(s)[i]) by {
        text_lines(s).lemma_filter_contains_rev(pred, non_empty_text_lines(s)[i]);
        assert(non_empty_text_lines(s).contains(non_empty_text_lines(s)[i]));
    }
}


proof fn lemma_pieces_have_no_newline(s: Seq<char>)
    ensures
        newline_pieces(s).len() >= 1,
        forall|i: int, k: int|
            #![trigger newline_pieces(s)[i][k]]
            0 <= i < newline_pieces(s).len() && 0 <= k < newline_pieces(s)[i].len()
                ==> newline_pieces(s)[i][k] != '\n',
    decreases s.len(),
{
    if s.len() > 0 {
        lemma_pieces_have_no_newline(s.drop_last());
        let before = newline_pieces(s.drop_last());
        let p = newline_pieces(s);
        if s.last() != '\n' {
            assert forall|i: int, k: int|
                #![trigger p[i][k]]
                0 <= i < p.len() && 0 <= k < p[i].len() implies p[i][k] != '\n' by {
                if i == p.len() - 1 {
                    if k < before.last().len() {
                        assert(p[i][k] == before[i][k]);
                    }
                } else {
                    assert(p[i] == before[i]);
                }
            }
        } else {
            assert forall|i: int, k: int|
                #![trigger p[i][k]]
                0 <= i < p.len() && 0 <= k < p[i].len() implies p[i][k] != '\n' by {
                assert(p[i] == before[i]);
            }
        }
    }
}

/// No line of a text holds a newline.
pub proof fn lemma_lines_have_no_newline(s: Seq<char>)
    ensures
        forall|i: int, k: int|
            #![trigger text_lines(s)[i][k]]
            0 <= i < text_lines(s).len() && 0 <= k < text_lines(s)[i].len() ==> text_lines(s)[i][k]
                != '\n',
{
    lemma_pieces_have_no_newline(s);
    let p = newline_pieces(s);
    let lines = text_lines(s);
    assert forall|i: int, k: int|
        #![trigger lines[i][k]]
        0 <= i < lines.len() && 0 <= k < lines[i].len() implies lines[i][k] != '\n' by {
        if i < p.len() - 1 {
            assert(lines[i] == strip_carriage_return(p[i]));
            assert(lines[i][k] == p[i][k]);
        } else {
            assert(lines[i] == p.last());
            assert(lines[i][k] == p[p.len() - 1][k]);
        }
    }
}

/// The words of a word list are non-empty and hold no newline.
pub proof fn lemma_words_have_no_newline(s: Seq<char>)
    ensures
        forall|i: int, k: int|
            #![trigger non_empty_text_lines(s)[i][k]]
            0 <= i < non_empty_text_lines(s).len() && 0 <= k < non_empty_text_lines(s)[i].len()
                ==> non_empty_text_lines(s)[i][k] != '\n',
{
    lemma_words_are_nonempty_lines(s);
    lemma_lines_have_no_newline(s);
    let words = non_empty_text_lines(s);
    let lines = text_lines(s);
    assert forall|i: int, k: int|
        #![trigger words[i][k]]
        0 <= i < words.len() && 0 <= k < words[i].len() implies words[i][k] != '\n' by {
        assert(lines.contains(words[i]));
        let j = choose|j: int| 0 <= j < lines.len() && lines[j] == words[i];
        assert(lines[j][k] != '\n');
    }
}

} // verus!
