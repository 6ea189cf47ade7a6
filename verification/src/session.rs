//! The pseudo-terminal session registry and the per-session reader-loop
//! state machine.
//!
//! The registry owns the bookkeeping for every live session: which ids
//! exist, their terminal dimensions, and whether their reader has already
//! observed the child's exit. The host application owns the actual
//! pseudo-terminal handles; each registry operation that needs I/O returns
//! a command value (`WriteCmd`, `ResizeCmd`) describing exactly what the
//! host must perform, so the decision logic here is verified while the
//! blocking reads and writes stay outside.

use vstd::prelude::*;
use crate::text::opt_str_view;
use vstd::pervasive::VecAdditionalExecFns;
use vstd::string::*;

verus! {

/// Largest number of columns a new session may be created with.
pub const MAX_COLS: u16 = 500;
/// Largest number of rows a new session may be created with.
pub const MAX_ROWS: u16 = 500;

/// Errors surfaced by the session registry operations.
#[derive(Debug)]
pub enum PtyError {
    /// A `create` request named dimensions outside `[1, 500]`.
    InvalidDimensions { cols: u16, rows: u16 },
    /// The named session id is not present in the registry.
    SessionNotFound { id: String },
    /// A write or flush against the child's input failed in the host.
    IoError { reason: String },
    /// The host could not allocate a pseudo-terminal or launch the program.
    SpawnFailure { reason: String },
}

/// Dimensions a session may be created with: both sides within `[1, 500]`.
pub open spec fn dims_ok(cols: u16, rows: u16) -> bool {
    1 <= cols <= MAX_COLS && 1 <= rows <= MAX_ROWS
}

/// Checks a requested terminal size against the creation bounds.
pub fn check_dims(cols: u16, rows: u16) -> (r: Result<(), PtyError>)
    ensures
        r is Ok <==> dims_ok(cols, rows),
        r matches Err(e) ==> e matches PtyError::InvalidDimensions { cols: c, rows: w }
            && c == cols && w == rows,
{
    if cols == 0 || rows == 0 || cols > MAX_COLS || rows > MAX_ROWS {
        Err(PtyError::InvalidDimensions { cols, rows })
    } else {
        Ok(())
    }
}

// ─── Host environment and spawn specification ───────────────────────────────

/// Plain values the host gathers from its environment before creating a
/// session: the outcome of a search-path lookup for the preferred binary,
/// whether the two well-known install locations exist, the user's configured
/// shell, and the current search path.
pub struct HostEnv {
    /// Full path found for the preferred binary on the search path, if any.
    pub which_assistant: Option<String>,
    /// Whether `/opt/homebrew/bin/assistant` exists.
    pub brew_assistant: bool,
    /// Whether `/usr/local/bin/assistant` exists.
    pub local_assistant: bool,
    /// The user's configured shell, if the environment names one.
    pub shell: Option<String>,
    /// The current search path, to be augmented for the spawned process.
    pub base_path: String,
}

/// The program a new session launches, resolved in order: the search-path
/// lookup, the two well-known install locations, the configured shell, and
/// finally a fixed fallback shell.
pub open spec fn resolved_program(
    which_assistant: Option<Seq<char>>,
    brew_assistant: bool,
    local_assistant: bool,
    shell: Option<Seq<char>>,
) -> Seq<char> {
    match which_assistant {
        Option::Some(p) => p,
        Option::None => if brew_assistant {
            "/opt/homebrew/bin/assistant"@
        } else if local_assistant {
            "/usr/local/bin/assistant"@
        } else {
            match shell {
                Option::Some(s) => s,
                Option::None => "/bin/zsh"@,
            }
        },
    }
}

/// Resolves which program a new session launches from the host environment.
pub fn resolve_program(host: &HostEnv) -> (r: String)
    ensures
        r@ == resolved_program(
            opt_str_view(host.which_assistant),
            host.brew_assistant,
            host.local_assistant,
            opt_str_view(host.shell),
        ),
{
    match &host.which_assistant {
        Option::Some(p) => p.clone(),
        Option::None => {
            if host.brew_assistant {
                String::from_str("/opt/homebrew/bin/assistant")
            } else if host.local_assistant {
                String::from_str("/usr/local/bin/assistant")
            } else {
                match &host.shell {
                    Option::Some(s) => s.clone(),
                    Option::None => String::from_str("/bin/zsh"),
                }
            }
        },
    }
}

/// The search path handed to a spawned session: the host's path with the
/// common package-manager install directories appended, so processes
/// launched from a GUI still find the expected tools.
pub open spec fn augmented_path(base: Seq<char>) -> Seq<char> {
    base + ":/opt/homebrew/bin:/usr/local/bin:/usr/bin:/bin"@
}

/// Appends the fixed package-manager directories to a search path.
pub fn augment_path(base: &String) -> (r: String)
    ensures
        r@ == augmented_path(base@),
{
    let mut r = base.clone();
    r.append(":/opt/homebrew/bin:/usr/local/bin:/usr/bin:/bin");
    r
}

/// Everything the host needs to spawn one session's child process: the
/// resolved program, working directory, terminal size, and the environment
/// variables to set.
pub struct SpawnSpec {
    pub program: String,
    pub cwd: String,
    pub cols: u16,
    pub rows: u16,
    pub env: Vec<(String, String)>,
}

/// Builds the spawn specification for a new session: the resolved program,
/// the given working directory and size, and exactly three environment
/// variables — the fixed terminal capabilities and the augmented search path.
pub fn spawn_spec(host: &HostEnv, cwd: String, cols: u16, rows: u16) -> (s: SpawnSpec)
    ensures
        s.program@ == resolved_program(
            opt_str_view(host.which_assistant),
            host.brew_assistant,
            host.local_assistant,
            opt_str_view(host.shell),
        ),
        s.cwd@ == cwd@,
        s.cols == cols,
        s.rows == rows,
        s.env@.len() == 3,
        s.env@[0].0@ == "TERM"@ && s.env@[0].1@ == "xterm-256color"@,
        s.env@[1].0@ == "COLORTERM"@ && s.env@[1].1@ == "truecolor"@,
        s.env@[2].0@ == "PATH"@ && s.env@[2].1@ == augmented_path(host.base_path@),
{
    let program = resolve_program(host);
    let mut env: Vec<(String, String)> = Vec::new();
    env.push((String::from_str("TERM"), String::from_str("xterm-256color")));
    env.push((String::from_str("COLORTERM"), String::from_str("truecolor")));
    env.push((String::from_str("PATH"), augment_path(&host.base_path)));
    SpawnSpec { program, cwd, cols, rows, env }
}

// ─── The session registry ────────────────────────────────────────────────────

/// Abstract state of one session as the registry tracks it.
pub ghost struct SessionView {
    pub cols: u16,
    pub rows: u16,
    pub cwd: Seq<char>,
    pub exit_observed: bool,
}

struct SessionEntry {
    id: String,
    cols: u16,
    rows: u16,
    cwd: String,
    exit_observed: bool,
}

impl SessionEntry {
    spec fn view_entry(&self) -> SessionView {
        SessionView {
            cols: self.cols,
            rows: self.rows,
            cwd: self.cwd@,
            exit_observed: self.exit_observed,
        }
    }
}

spec fn distinct_ids(s: Seq<SessionEntry>) -> bool {
    forall|i: int, j: int| 0 <= i < j < s.len() ==> s[i].id@ != s[j].id@
}

spec fn map_of(s: Seq<SessionEntry>) -> Map<Seq<char>, SessionView>
    decreases s.len(),
{
    if s.len() == 0 {
        Map::empty()
    } else {
        map_of(s.drop_last()).insert(s.last().id@, s.last().view_entry())
    }
}

proof fn lemma_map_of_contains(s: Seq<SessionEntry>, id: Seq<char>)
    ensures
        map_of(s).contains_key(id) <==> exists|i: int| 0 <= i < s.len() && s[i].id@ == id,
    decreases s.len(),
{
    if s.len() > 0 {
        lemma_map_of_contains(s.drop_last(), id);
        if s.last().id@ == id {
            assert(s[s.len() - 1].id@ == id);
        } else if map_of(s).contains_key(id) {
            let i = choose|i: int| 0 <= i < s.drop_last().len() && s.drop_last()[i].id@ == id;
            assert(s[i].id@ == id);
        } else if exists|i: int| 0 <= i < s.len() && s[i].id@ == id {
            let i = choose|i: int| 0 <= i < s.len() && s[i].id@ == id;
            assert(i < s.len() - 1);
            assert(s.drop_last()[i].id@ == id);
        }
    }
}

proof fn lemma_map_of_index(s: Seq<SessionEntry>, i: int)
    requires
        distinct_ids(s),
        0 <= i < s.len(),
    ensures
        map_of(s).contains_key(s[i].id@),
        map_of(s)[s[i].id@] == s[i].view_entry(),
    decreases s.len(),
{
    if i == s.len() - 1 {
        lemma_map_of_contains(s, s[i].id@);
    } else {
        lemma_map_of_index(s.drop_last(), i);
        assert(s.drop_last()[i] == s[i]);
        assert(s.last().id@ != s[i].id@);
    }
}

proof fn lemma_map_of_push(s: Seq<SessionEntry>, e: SessionEntry)
    ensures
        map_of(s.push(e)) == map_of(s).insert(e.id@, e.view_entry()),
{
    assert(s.push(e).drop_last() =~= s);
    assert(s.push(e).last() == e);
}

proof fn lemma_map_of_update(s: Seq<SessionEntry>, i: int, e: SessionEntry)
    requires
        distinct_ids(s),
        0 <= i < s.len(),
        e.id@ == s[i].id@,
    ensures
        map_of(s.update(i, e)) == map_of(s).insert(e.id@, e.view_entry()),
    decreases s.len(),
{
    let su = s.update(i, e);
    if i == s.len() - 1 {
        assert(su.drop_last() =~= s.drop_last());
        assert(su.last() == e);
    } else {
        assert(su.last() == s.last());
        assert(su.drop_last() =~= s.drop_last().update(i, e));
        lemma_map_of_update(s.drop_last(), i, e);
        assert(s.last().id@ != e.id@);
        assert(map_of(su) == map_of(s.drop_last()).insert(e.id@, e.view_entry()).insert(
            s.last().id@,
            s.last().view_entry(),
        ));
        assert(map_of(s.drop_last()).insert(e.id@, e.view_entry()).insert(
            s.last().id@,
            s.last().view_entry(),
        ) =~= map_of(s).insert(e.id@, e.view_entry()));
    }
}

proof fn lemma_map_of_remove(s: Seq<SessionEntry>, i: int)
    requires
        distinct_ids(s),
        0 <= i < s.len(),
    ensures
        map_of(s.remove(i)) == map_of(s).remove(s[i].id@),
    decreases s.len(),
{
    let sr = s.remove(i);
    if i == s.len() - 1 {
        assert(sr =~= s.drop_last());
        lemma_map_of_contains(s.drop_last(), s[i].id@);
        assert(forall|j: int| 0 <= j < s.drop_last().len() ==> s.drop_last()[j].id@ != s[i].id@);
        assert(!map_of(s.drop_last()).contains_key(s[i].id@));
        assert(map_of(s.drop_last()).insert(s.last().id@, s.last().view_entry()).remove(
            s[i].id@,
        ) =~= map_of(s.drop_last()));
    } else {
        assert(sr.last() == s.last());
        assert(sr.drop_last() =~= s.drop_last().remove(i));
        lemma_map_of_remove(s.drop_last(), i);
        assert(s.last().id@ != s[i].id@);
        assert(map_of(sr) == map_of(s.drop_last()).remove(s[i].id@).insert(
            s.last().id@,
            s.last().view_entry(),
        ));
        assert(map_of(s.drop_last()).remove(s[i].id@).insert(
            s.last().id@,
            s.last().view_entry(),
        ) =~= map_of(s).remove(s[i].id@));
    }
}

/// The registry of live sessions, keyed by session id. A single value of
/// this type stands behind one lock in the host; every operation here is a
/// short, non-blocking structural step.
pub struct SessionTable {
    entries: Vec<SessionEntry>,
}

/// A command to the host: forward these bytes, verbatim, to the child's
/// input and flush.
pub struct WriteCmd {
    pub id: String,
    pub data: Vec<u8>,
}

/// A command to the host: report this size to the session's pseudo-terminal.
pub struct ResizeCmd {
    pub id: String,
    pub cols: u16,
    pub rows: u16,
}

impl View for SessionTable {
    type V = Map<Seq<char>, SessionView>;

    closed spec fn view(&self) -> Map<Seq<char>, SessionView> {
        map_of(self.entries@)
    }
}

impl SessionTable {
    /// No two live entries share an id.
    pub closed spec fn wf(&self) -> bool {
        distinct_ids(self.entries@)
    }

    /// An empty registry.
    pub fn new() -> (t: SessionTable)
        ensures
            t.wf(),
            t@ == Map::<Seq<char>, SessionView>::empty(),
    {
        SessionTable { entries: Vec::new() }
    }

    fn find_index(&self, id: &String) -> (r: Option<usize>)
        ensures
            r matches Some(i) ==> i < self.entries@.len() && self.entries@[i as int].id@ == id@,
            r is None ==> forall|i: int|
                0 <= i < self.entries@.len() ==> self.entries@[i].id@ != id@,
    {
        let mut i: usize = 0;
        while i < self.entries.len()
            invariant
                i <= self.entries@.len(),
                forall|j: int| 0 <= j < i ==> self.entries@[j].id@ != id@,
            decreases self.entries@.len() - i,
        {
            if self.entries[i].id.eq(id) {
                return Some(i);
            }
            i = i + 1;
        }
        None
    }

    /// Whether a session with this id is live in the registry.
    pub fn contains(&self, id: &String) -> (b: bool)
        requires
            self.wf(),
        ensures
            b == self@.contains_key(id@),
    {
        proof {
            lemma_map_of_contains(self.entries@, id@);
        }
        self.find_index(id).is_some()
    }

    /// Validates the requested dimensions, issues a fresh id, and records
    /// the new session. On invalid dimensions nothing is recorded and no id
    /// is issued. The host spawns the child only after this succeeds; if the
    /// spawn then fails, the host rolls the entry back with `kill`.
    pub fn create(&mut self, cwd: String, cols: u16, rows: u16) -> (r: Result<
        String,
        PtyError,
    >)
        requires
            old(self).wf(),
        ensures
            final(self).wf(),
            r is Ok <==> dims_ok(cols, rows),
            r matches Ok(id) ==> final(self)@ == old(self)@.insert(
                id@,
                SessionView { cols, rows, cwd: cwd@, exit_observed: false },
            ),
            r matches Err(e) ==> final(self)@ == old(self)@ && (e matches PtyError::InvalidDimensions {
                cols: c,
                rows: w,
            } && c == cols && w == rows),
    {
        if let Err(e) = check_dims(cols, rows) {
            return Err(e);
        }
        let id = fresh_id();
        let entry = SessionEntry { id: id.clone(), cols, rows, cwd, exit_observed: false };
        match self.find_index(&id) {
            Some(i) => {
                proof {
                    lemma_map_of_update(self.entries@, i as int, entry);
                }
                self.entries.set(i, entry);
            },
            None => {
                proof {
                    lemma_map_of_push(self.entries@, entry);
                }
                self.entries.push(entry);
            },
        }
        Ok(id)
    }

    /// Authorizes forwarding `data` to the session's child: returns the
    /// write command for a live id, verbatim, and `SessionNotFound` for an
    /// absent one. The registry itself is unchanged.
    pub fn write(&self, id: &String, data: Vec<u8>) -> (r: Result<WriteCmd, PtyError>)
        requires
            self.wf(),
        ensures
            r is Ok <==> self@.contains_key(id@),
            r matches Ok(w) ==> w.id@ == id@ && w.data@ == data@,
            r matches Err(e) ==> e matches PtyError::SessionNotFound { id: i } && i@ == id@,
    {
        proof {
            lemma_map_of_contains(self.entries@, id@);
        }
        match self.find_index(id) {
            Some(_) => Ok(WriteCmd { id: id.clone(), data }),
            None => Err(PtyError::SessionNotFound { id: id.clone() }),
        }
    }

    /// Records a new size for a live session and returns the resize command
    /// for the host. Note the asymmetry with `create`: no bound is applied
    /// to the requested dimensions here — success depends only on whether
    /// the id is live.
    pub fn resize(&mut self, id: &String, cols: u16, rows: u16) -> (r: Result<
        ResizeCmd,
        PtyError,
    >)
        requires
            old(self).wf(),
        ensures
            final(self).wf(),
            r is Ok <==> old(self)@.contains_key(id@),
            r matches Ok(c) ==> c.id@ == id@ && c.cols == cols && c.rows == rows && final(self)@ == old(
                self,
            )@.insert(
                id@,
                SessionView {
                    cols,
                    rows,
                    cwd: old(self)@[id@].cwd,
                    exit_observed: old(self)@[id@].exit_observed,
                },
            ),
            r matches Err(e) ==> final(self)@ == old(self)@ && (e matches PtyError::SessionNotFound {
                id: i,
            } && i@ == id@),
    {
        proof {
            lemma_map_of_contains(self.entries@, id@);
        }
        match self.find_index(id) {
            Some(i) => {
                proof {
                    lemma_map_of_index(self.entries@, i as int);
                }
                let entry = SessionEntry {
                    id: id.clone(),
                    cols,
                    rows,
                    cwd: self.entries[i].cwd.clone(),
                    exit_observed: self.entries[i].exit_observed,
                };
                proof {
                    lemma_map_of_update(self.entries@, i as int, entry);
                }
                self.entries.set(i, entry);
                Ok(ResizeCmd { id: id.clone(), cols, rows })
            },
            None => Err(PtyError::SessionNotFound { id: id.clone() }),
        }
    }

    /// Removes the session's entry; the host drops the owned handles, which
    /// closes the controlling terminal and lets the OS hang up the child.
    /// Killing an absent id is a no-op, so the operation is idempotent.
    pub fn kill(&mut self, id: &String) -> (removed: bool)
        requires
            old(self).wf(),
        ensures
            final(self).wf(),
            final(self)@ == old(self)@.remove(id@),
            removed == old(self)@.contains_key(id@),
    {
        proof {
            lemma_map_of_contains(self.entries@, id@);
        }
        match self.find_index(id) {
            Some(i) => {
                proof {
                    lemma_map_of_remove(self.entries@, i as int);
                }
                self.entries.remove(i);
                true
            },
            None => {
                proof {
                    assert(self@.remove(id@) =~= self@);
                }
                false
            },
        }
    }

    /// Marks a live session as having had its exit observed by the reader
    /// loop. The entry deliberately stays in the registry — removal only
    /// ever happens through an explicit `kill` — so an exited session still
    /// occupies table space until the caller kills it.
    pub fn note_exit(&mut self, id: &String)
        requires
            old(self).wf(),
        ensures
            final(self).wf(),
            old(self)@.contains_key(id@) ==> final(self)@ == old(self)@.insert(
                id@,
                SessionView {
                    cols: old(self)@[id@].cols,
                    rows: old(self)@[id@].rows,
                    cwd: old(self)@[id@].cwd,
                    exit_observed: true,
                },
            ),
            !old(self)@.contains_key(id@) ==> final(self)@ == old(self)@,
    {
        proof {
            lemma_map_of_contains(self.entries@, id@);
        }
        match self.find_index(id) {
            Some(i) => {
                proof {
                    lemma_map_of_index(self.entries@, i as int);
                }
                let entry = SessionEntry {
                    id: id.clone(),
                    cols: self.entries[i].cols,
                    rows: self.entries[i].rows,
                    cwd: self.entries[i].cwd.clone(),
                    exit_observed: true,
                };
                proof {
                    lemma_map_of_update(self.entries@, i as int, entry);
                }
                self.entries.set(i, entry);
            },
            None => {},
        }
    }
}

/// Relies on `uuid::Uuid::new_v4` and its `Display` form: a fresh random
/// identifier rendered as the 36-character hyphenated form. Nothing is
/// assumed about which identifier comes back beyond its length.
#[verifier::external_body]
pub(crate) fn fresh_id() -> (r: String)
    ensures
        r@.len() == 36,
{
    uuid::Uuid::new_v4().to_string()
}

// ─── Removal is final: a killed id misses the registry ──────────────────────

/// After `kill(id)` the registry no longer contains `id`, so `write` and
/// `resize` — whose success is exactly membership of the id — both fail
/// with `SessionNotFound` until a new session is created.
pub proof fn lemma_killed_id_not_found(t: Map<Seq<char>, SessionView>, id: Seq<char>)
    ensures
        !t.remove(id).contains_key(id),
{
}

/// Killing the same id twice leaves the registry exactly as one kill does:
/// the second removal is a no-op.
pub proof fn lemma_kill_idempotent(t: Map<Seq<char>, SessionView>, id: Seq<char>)
    ensures
        t.remove(id).remove(id) == t.remove(id),
{
    assert(t.remove(id).remove(id) =~= t.remove(id));
}


// ─── The reader loop ─────────────────────────────────────────────────────────

/// Payload of an `output` event: one chunk of bytes the reader took from
/// the session's pseudo-terminal.
pub struct PtyOutputPayload {
    pub pty_id: String,
    pub data: Vec<u8>,
}

/// Payload of an `exit` event: the reader observed EOF or a read error.
pub struct PtyExitPayload {
    pub pty_id: String,
}

/// An event the reader loop asks the host to deliver to its sink.
pub enum PtyEvent {
    Output(PtyOutputPayload),
    Exit(PtyExitPayload),
}

/// What one blocking read against the pseudo-terminal produced: a non-empty
/// chunk of bytes, or the end of the stream (a zero-length read or an error,
/// which the loop treats alike).
pub enum ReadOutcome {
    Data(Vec<u8>),
    Eof,
}

/// Abstract form of an emitted event, for stating the reader's laws.
pub ghost enum EventModel {
    Output(Seq<u8>),
    Exit,
}

/// The events a reader emits for a sequence of read outcomes: one output
/// event per chunk, in order, until the first end-of-stream, which emits a
/// single exit event and stops the loop.
pub open spec fn reader_events(reads: Seq<ReadOutcome>) -> Seq<EventModel>
    decreases reads.len(),
{
    if reads.len() == 0 {
        Seq::empty()
    } else {
        match reads.first() {
            ReadOutcome::Data(d) => seq![EventModel::Output(d@)] + reader_events(
                reads.drop_first(),
            ),
            ReadOutcome::Eof => seq![EventModel::Exit],
        }
    }
}

/// Whether some read outcome in the sequence is the end of the stream.
pub open spec fn has_eof(reads: Seq<ReadOutcome>) -> bool {
    exists|i: int| 0 <= i < reads.len() && reads[i] is Eof
}

/// Index of the first end-of-stream outcome (the sequence length if none).
pub open spec fn first_eof(reads: Seq<ReadOutcome>) -> int
    decreases reads.len(),
{
    if reads.len() == 0 {
        0
    } else if reads.first() is Eof {
        0
    } else {
        1 + first_eof(reads.drop_first())
    }
}

/// Number of exit events in a sequence of emitted events.
pub open spec fn exit_count(evs: Seq<EventModel>) -> nat
    decreases evs.len(),
{
    if evs.len() == 0 {
        0
    } else {
        (if evs.first() is Exit {
            1nat
        } else {
            0nat
        }) + exit_count(evs.drop_first())
    }
}

/// For one session's reader, the emitted events reproduce the read chunks
/// in order and byte-for-byte: every event before the first end-of-stream
/// is the output of the chunk read at the same position, and when the
/// stream ends, the single following event is the exit event.
pub proof fn lemma_reader_events_shape(reads: Seq<ReadOutcome>)
    ensures
        0 <= first_eof(reads) <= reads.len(),
        has_eof(reads) ==> first_eof(reads) < reads.len() && reads[first_eof(reads)] is Eof
            && reader_events(reads).len() == first_eof(reads) + 1 && reader_events(
            reads,
        ).last() == EventModel::Exit,
        !has_eof(reads) ==> reader_events(reads).len() == reads.len(),
        forall|i: int| #![trigger reads[i]]
            0 <= i < reads.len() && i < first_eof(reads) ==> (reads[i] matches ReadOutcome::Data(
                d,
            ) && reader_events(reads)[i] == EventModel::Output(d@)),
    decreases reads.len(),
{
    if reads.len() > 0 {
        lemma_reader_events_shape(reads.drop_first());
        if reads.first() is Eof {
            assert(has_eof(reads));
        } else {
            let rest = reads.drop_first();
            if has_eof(rest) {
                let w = choose|i: int| 0 <= i < rest.len() && rest[i] is Eof;
                assert(reads[w + 1] is Eof);
                assert(has_eof(reads));
            }
            if has_eof(reads) {
                let w = choose|i: int| 0 <= i < reads.len() && reads[i] is Eof;
                assert(rest[w - 1] is Eof);
                assert(has_eof(rest));
            }
            assert(forall|i: int| #![trigger reads[i]]
                0 <= i < reads.len() && i < first_eof(reads) ==> (
                reads[i] matches ReadOutcome::Data(d) && reader_events(reads)[i]
                    == EventModel::Output(d@))) by {
                assert(forall|i: int| 1 <= i < reads.len() ==> reads[i] == rest[i - 1]);
            }
        }
    }
}

/// A reader emits at most one exit event; exactly one when the stream ends,
/// none while it has not.
pub proof fn lemma_reader_exit_events(reads: Seq<ReadOutcome>)
    ensures
        exit_count(reader_events(reads)) <= 1,
        has_eof(reads) ==> exit_count(reader_events(reads)) == 1,
        !has_eof(reads) ==> exit_count(reader_events(reads)) == 0,
    decreases reads.len(),
{
    if reads.len() == 0 {
        assert(!has_eof(reads));
    } else if reads.first() is Eof {
        assert(has_eof(reads));
        let evs = reader_events(reads);
        assert(evs == seq![EventModel::Exit]);
        assert(evs.drop_first().len() == 0);
        assert(exit_count(evs.drop_first()) == 0);
        assert(exit_count(evs) == 1);
    } else {
        let rest = reads.drop_first();
        lemma_reader_exit_events(rest);
        if has_eof(rest) {
            let w = choose|i: int| 0 <= i < rest.len() && rest[i] is Eof;
            assert(reads[w + 1] is Eof);
            assert(has_eof(reads));
        }
        if has_eof(reads) {
            let w = choose|i: int| 0 <= i < reads.len() && reads[i] is Eof;
            assert(rest[w - 1] is Eof);
            assert(has_eof(rest));
        }
        let d = reads.first()->Data_0;
        let evs = reader_events(reads);
        assert(evs == seq![EventModel::Output(d@)] + reader_events(rest));
        assert(evs.drop_first() =~= reader_events(rest));
        assert(!(evs.first() is Exit));
    }
}

/// Per-session state of the reader loop: the session id whose events it
/// emits, and whether it has already emitted its exit event and stopped.
pub struct SessionReader {
    pub id: String,
    pub finished: bool,
}

/// One emitted event corresponds to one abstract event for the given id.
pub open spec fn event_matches(ev: PtyEvent, id: Seq<char>, m: EventModel) -> bool {
    match ev {
        PtyEvent::Output(p) => p.pty_id@ == id && m == EventModel::Output(p.data@),
        PtyEvent::Exit(p) => p.pty_id@ == id && m == EventModel::Exit,
    }
}

impl SessionReader {
    /// A reader for a freshly created session.
    pub fn new(id: String) -> (r: SessionReader)
        ensures
            r.id@ == id@,
            !r.finished,
    {
        SessionReader { id, finished: false }
    }

    /// The decision the reader loop takes for one blocking-read outcome:
    /// data emits an output event carrying the bytes verbatim; end of
    /// stream emits the exit event and stops the loop; once stopped, no
    /// further event is ever emitted.
    pub fn on_read(&mut self, outcome: ReadOutcome) -> (ev: Option<PtyEvent>)
        ensures
            final(self).id == old(self).id,
            old(self).finished ==> final(self).finished && ev is None,
            !old(self).finished ==> (outcome matches ReadOutcome::Data(d)
                ==> !final(self).finished && (ev matches Some(e)
                && event_matches(e, old(self).id@, EventModel::Output(d@)))),
            !old(self).finished && outcome is Eof ==> final(self).finished && (ev matches Some(e)
                && event_matches(e, old(self).id@, EventModel::Exit)),
    {
        if self.finished {
            return None;
        }
        match outcome {
            ReadOutcome::Data(d) => Some(
                PtyEvent::Output(PtyOutputPayload { pty_id: self.id.clone(), data: d }),
            ),
            ReadOutcome::Eof => {
                self.finished = true;
                Some(PtyEvent::Exit(PtyExitPayload { pty_id: self.id.clone() }))
            },
        }
    }

    /// Runs the reader decision over a whole sequence of read outcomes, as
    /// the host's loop does one at a time: the emitted events are exactly
    /// `reader_events` of the outcomes, for this reader's session id.
    pub fn drain(&mut self, reads: Vec<ReadOutcome>) -> (evs: Vec<PtyEvent>)
        requires
            !old(self).finished,
        ensures
            final(self).id == old(self).id,
            final(self).finished == has_eof(reads@),
            evs@.len() == reader_events(reads@).len(),
            forall|i: int|
                0 <= i < evs@.len() ==> event_matches(
                    evs@[i],
                    old(self).id@,
                    reader_events(reads@)[i],
                ),
        decreases reads@.len(),
    {
        let ghost reads0 = reads@;
        let mut rest = reads;
        if rest.len() == 0 {
            proof {
                assert(!has_eof(reads0));
            }
            return Vec::new();
        }
        let first = rest.remove(0);
        proof {
            assert(reads0.first() == first);
            assert(reads0.drop_first() =~= rest@);
        }
        let ev = self.on_read(first);
        let e = match ev {
            Some(e) => e,
            None => {
                proof {
                    assert(false);
                }
                unreached()
            },
        };
        if self.finished {
            proof {
                assert(reads0[0] is Eof);
                assert(has_eof(reads0));
                assert(reader_events(reads0) =~= seq![EventModel::Exit]);
            }
            let mut evs: Vec<PtyEvent> = Vec::new();
            evs.push(e);
            evs
        } else {
            proof {
                let rest0 = reads0.drop_first();
                if has_eof(rest0) {
                    let w = choose|i: int| 0 <= i < rest0.len() && rest0[i] is Eof;
                    assert(reads0[w + 1] is Eof);
                }
                if has_eof(reads0) {
                    let w = choose|i: int| 0 <= i < reads0.len() && reads0[i] is Eof;
                    assert(rest0[w - 1] is Eof);
                }
            }
            let mut evs = self.drain(rest);
            evs.insert(0, e);
            proof {
                let d = reads0.first()->Data_0;
                assert(reader_events(reads0) == seq![EventModel::Output(d@)] + reader_events(
                    reads0.drop_first(),
                ));
            }
            evs
        }
    }
}

} // verus!
