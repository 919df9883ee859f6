//! Worksets: named fleet configurations and the store that owns them.
//!
//! The store keeps the authoritative collection in memory, keyed by id;
//! persistence (a directory of JSON files) is layered on from outside and
//! is fed from the values this store hands out. Identifier generation and
//! timestamping call into their libraries behind trusted items; everything
//! that validates and merges is verified.

use vstd::prelude::*;
use crate::textscan::{
    bytes_le, is_blank, lemma_lex_le_total, lex_le, str_eq, str_is_blank, string_bytes,
    u64_to_string,
};

verus! {

broadcast use vstd::seq_lib::group_to_multiset_ensures;

/// The standard remote-shell port.
pub fn default_ssh_port() -> (r: u16)
    ensures
        r == 22,
{
    22
}

/// Relies on chrono: `Utc::now().to_rfc3339_opts(SecondsFormat::Secs, true)`
/// formats the current wall-clock time as RFC 3339, second precision, with
/// a trailing `Z` for the UTC offset and a `T` date/time separator.
#[verifier::external_body]
pub fn now_iso8601() -> (r: String)
    ensures
        r@.len() >= 2,
        r@[r@.len() - 1] == 'Z',
        exists|i: int| 0 <= i < r@.len() && r@[i] == 'T',
{
    chrono::Utc::now().to_rfc3339_opts(chrono::SecondsFormat::Secs, true)
}

/// Relies on uuid: `Uuid::new_v4()` rendered through `Display` is the
/// hyphenated form, 36 characters for every generated value.
#[verifier::external_body]
fn new_uuid_string() -> (r: String)
    ensures
        r@.len() == 36,
{
    uuid::Uuid::new_v4().to_string()
}

/// How a connection authenticates.
#[derive(Clone, Copy, Debug, PartialEq, Eq, Structural)]
pub enum AuthMethod {
    Key,
    Password,
    SshConfig,
}

/// One remote endpoint inside a workset.
#[derive(Clone, Debug)]
pub struct ConnectionConfig {
    pub host: String,
    pub port: u16,
    pub user: String,
    pub auth_method: AuthMethod,
    pub key_path: Option<String>,
    pub project_path: String,
    pub ai_cli_command: Option<String>,
    pub keepalive_interval_secs: Option<u32>,
    pub reconnect_max_retries: Option<u32>,
}

/// How the terminals are laid out.
#[derive(Clone, Debug)]
pub struct GridLayout {
    pub preset: Option<String>,
    pub rows: u32,
    pub cols: u32,
}

/// A stored workset.
#[derive(Clone, Debug)]
pub struct Workset {
    pub id: String,
    pub name: String,
    pub created_at: String,
    pub updated_at: String,
    pub connections: Vec<ConnectionConfig>,
    pub grid_layout: GridLayout,
}

/// One line of the workset list.
#[derive(Clone, Debug)]
pub struct WorksetSummary {
    pub id: String,
    pub name: String,
    pub connection_count: u32,
    pub updated_at: String,
}

/// What a new workset is created from.
#[derive(Clone, Debug)]
pub struct CreateWorksetInput {
    pub name: String,
    pub connections: Vec<ConnectionConfig>,
    pub grid_layout: GridLayout,
}

/// A partial update; absent parts stay as they are.
#[derive(Clone, Debug)]
pub struct UpdateWorksetInput {
    pub name: Option<String>,
    pub connections: Option<Vec<ConnectionConfig>>,
    pub grid_layout: Option<GridLayout>,
}

/// Store failures. The in-memory operations only ever produce
/// `Validation`; the other variants belong to the persistence layer
/// wrapped around the store.
#[derive(Clone, Debug)]
pub enum StoreError {
    ConfigDirUnavailable,
    Io(String),
    Json(String),
    LockPoisoned,
    Validation(String),
}

/// Abstract form of a connection.
pub ghost struct ConnectionV {
    pub host: Seq<char>,
    pub port: u16,
    pub user: Seq<char>,
    pub auth_method: AuthMethod,
    pub key_path: Option<Seq<char>>,
    pub project_path: Seq<char>,
    pub ai_cli_command: Option<Seq<char>>,
    pub keepalive_interval_secs: Option<u32>,
    pub reconnect_max_retries: Option<u32>,
}

/// Abstract form of a grid layout.
pub ghost struct GridV {
    pub preset: Option<Seq<char>>,
    pub rows: u32,
    pub cols: u32,
}

/// Abstract form of a workset.
pub ghost struct WorksetV {
    pub id: Seq<char>,
    pub name: Seq<char>,
    pub created_at: Seq<char>,
    pub updated_at: Seq<char>,
    pub connections: Seq<ConnectionV>,
    pub grid_layout: GridV,
}

/// Abstract form of a summary line.
pub ghost struct SummaryV {
    pub id: Seq<char>,
    pub name: Seq<char>,
    pub connection_count: u32,
    pub updated_at: Seq<char>,
}

pub open spec fn opt_view(o: Option<String>) -> Option<Seq<char>> {
    match o {
        Option::Some(s) => Option::Some(s@),
        Option::None => Option::None,
    }
}

pub open spec fn connection_view(c: ConnectionConfig) -> ConnectionV {
    ConnectionV {
        host: c.host@,
        port: c.port,
        user: c.user@,
        auth_method: c.auth_method,
        key_path: opt_view(c.key_path),
        project_path: c.project_path@,
        ai_cli_command: opt_view(c.ai_cli_command),
        keepalive_interval_secs: c.keepalive_interval_secs,
        reconnect_max_retries: c.reconnect_max_retries,
    }
}

pub open spec fn connections_view(s: Seq<ConnectionConfig>) -> Seq<ConnectionV> {
    s.map_values(|c: ConnectionConfig| connection_view(c))
}

pub open spec fn grid_view(g: GridLayout) -> GridV {
    GridV { preset: opt_view(g.preset), rows: g.rows, cols: g.cols }
}

pub open spec fn workset_view(w: Workset) -> WorksetV {
    WorksetV {
        id: w.id@,
        name: w.name@,
        created_at: w.created_at@,
        updated_at: w.updated_at@,
        connections: connections_view(w.connections@),
        grid_layout: grid_view(w.grid_layout),
    }
}

/// The summary a stored workset projects to.
pub open spec fn summary_of(w: WorksetV) -> SummaryV {
    SummaryV {
        id: w.id,
        name: w.name,
        connection_count: if w.connections.len() > 0xffff_ffff {
            0xffff_ffffu32
        } else {
            w.connections.len() as u32
        },
        updated_at: w.updated_at,
    }
}

pub open spec fn summary_view(s: WorksetSummary) -> SummaryV {
    SummaryV {
        id: s.id@,
        name: s.name@,
        connection_count: s.connection_count,
        updated_at: s.updated_at@,
    }
}

pub open spec fn summaries_view(s: Seq<WorksetSummary>) -> Seq<SummaryV> {
    s.map_values(|x: WorksetSummary| summary_view(x))
}

pub open spec fn summaries_of(s: Seq<WorksetV>) -> Seq<SummaryV> {
    s.map_values(|w: WorksetV| summary_of(w))
}

/// A connection is valid when host, user and project path are non-blank,
/// and key authentication names a non-blank key path.
pub open spec fn spec_valid_connection(c: ConnectionV) -> bool {
    &&& !is_blank(c.host)
    &&& !is_blank(c.user)
    &&& !is_blank(c.project_path)
    &&& (c.auth_method is Key ==> match c.key_path {
        Option::Some(p) => !is_blank(p),
        Option::None => false,
    })
}

/// Between one and ten connections, each valid.
pub open spec fn spec_valid_connections(s: Seq<ConnectionV>) -> bool {
    &&& 1 <= s.len() <= 10
    &&& forall|i: int| 0 <= i < s.len() ==> spec_valid_connection(#[trigger] s[i])
}

/// At least one row and one column.
pub open spec fn spec_valid_grid(g: GridV) -> bool {
    g.rows >= 1 && g.cols >= 1
}

/// A creation input is valid when the name is non-blank and both parts are.
pub open spec fn spec_valid_create(name: Seq<char>, conns: Seq<ConnectionV>, grid: GridV) -> bool {
    &&& !is_blank(name)
    &&& spec_valid_connections(conns)
    &&& spec_valid_grid(grid)
}

/// Checks one connection; `idx` only decorates the error message.
fn validate_connection(c: &ConnectionConfig, idx: usize) -> (r: Result<(), StoreError>)
    ensures
        r is Ok <==> spec_valid_connection(connection_view(*c)),
        r is Err ==> r matches Result::Err(StoreError::Validation(_)),
{
    let prefix = |field: &str| -> String {
        let mut m = "connections[".to_owned();
        m.append(u64_to_string(idx as u64).as_str());
        m.append("].");
        m.append(field);
        m
    };
    if str_is_blank(c.host.as_str()) {
        let mut m = prefix("host");
        m.append(" must not be empty");
        return Result::Err(StoreError::Validation(m));
    }
    if str_is_blank(c.user.as_str()) {
        let mut m = prefix("user");
        m.append(" must not be empty");
        return Result::Err(StoreError::Validation(m));
    }
    if str_is_blank(c.project_path.as_str()) {
        let mut m = prefix("project_path");
        m.append(" must not be empty");
        return Result::Err(StoreError::Validation(m));
    }
    if matches!(c.auth_method, AuthMethod::Key) {
        let key_ok: bool = match &c.key_path {
            Option::Some(p) => !str_is_blank(p.as_str()),
            Option::None => false,
        };
        if !key_ok {
            let mut m = prefix("key_path");
            m.append(" must be set when auth_method is key");
            return Result::Err(StoreError::Validation(m));
        }
    }
    Result::Ok(())
}

/// Checks a whole connection list: between one and ten entries, each valid.
pub fn validate_connections(connections: &[ConnectionConfig]) -> (r: Result<(), StoreError>)
    ensures
        r is Ok <==> spec_valid_connections(connections_view(connections@)),
        r is Err ==> r matches Result::Err(StoreError::Validation(_)),
{
    let n: usize = connections.len();
    if n == 0 {
        return Result::Err(
            StoreError::Validation("connections must contain at least 1 item".to_owned()),
        );
    }
    if n > 10 {
        return Result::Err(
            StoreError::Validation("connections must contain at most 10 items".to_owned()),
        );
    }
    let mut i: usize = 0;
    while i < n
        invariant
            n == connections@.len(),
            i <= n,
            forall|j: int| 0 <= j < i ==> spec_valid_connection(
                #[trigger] connections_view(connections@)[j],
            ),
        decreases n - i,
    {
        match validate_connection(&connections[i], i) {
            Result::Ok(()) => {
                proof {
                    assert(connections_view(connections@)[i as int] == connection_view(
                        connections@[i as int],
                    ));
                }
            },
            Result::Err(e) => {
                proof {
                    assert(connections_view(connections@)[i as int] == connection_view(
                        connections@[i as int],
                    ));
                }
                return Result::Err(e);
            },
        }
        i = i + 1;
    }
    Result::Ok(())
}

/// Checks a grid layout: at least one row and one column.
pub fn validate_grid_layout(grid_layout: &GridLayout) -> (r: Result<(), StoreError>)
    ensures
        r is Ok <==> spec_valid_grid(grid_view(*grid_layout)),
        r is Err ==> r matches Result::Err(StoreError::Validation(_)),
{
    if grid_layout.rows == 0 {
        return Result::Err(StoreError::Validation("grid_layout.rows must be >= 1".to_owned()));
    }
    if grid_layout.cols == 0 {
        return Result::Err(StoreError::Validation("grid_layout.cols must be >= 1".to_owned()));
    }
    Result::Ok(())
}

/// Checks a creation input: non-blank name, valid connections, valid grid.
pub fn validate_create(input: &CreateWorksetInput) -> (r: Result<(), StoreError>)
    ensures
        r is Ok <==> spec_valid_create(
            input.name@,
            connections_view(input.connections@),
            grid_view(input.grid_layout),
        ),
        r is Err ==> r matches Result::Err(StoreError::Validation(_)),
{
    if str_is_blank(input.name.as_str()) {
        return Result::Err(StoreError::Validation("name must not be empty".to_owned()));
    }
    match validate_connections(input.connections.as_slice()) {
        Result::Ok(()) => {},
        Result::Err(e) => {
            return Result::Err(e);
        },
    }
    match validate_grid_layout(&input.grid_layout) {
        Result::Ok(()) => {},
        Result::Err(e) => {
            return Result::Err(e);
        },
    }
    Result::Ok(())
}

fn clone_opt_string(o: &Option<String>) -> (r: Option<String>)
    ensures
        opt_view(r) == opt_view(*o),
{
    match o {
        Option::Some(s) => Option::Some(s.clone()),
        Option::None => Option::None,
    }
}

fn clone_connection(c: &ConnectionConfig) -> (r: ConnectionConfig)
    ensures
        connection_view(r) == connection_view(*c),
{
    ConnectionConfig {
        host: c.host.clone(),
        port: c.port,
        user: c.user.clone(),
        auth_method: c.auth_method,
        key_path: clone_opt_string(&c.key_path),
        project_path: c.project_path.clone(),
        ai_cli_command: clone_opt_string(&c.ai_cli_command),
        keepalive_interval_secs: c.keepalive_interval_secs,
        reconnect_max_retries: c.reconnect_max_retries,
    }
}

fn clone_connections(s: &Vec<ConnectionConfig>) -> (r: Vec<ConnectionConfig>)
    ensures
        connections_view(r@) == connections_view(s@),
{
    let n: usize = s.len();
    let mut out: Vec<ConnectionConfig> = Vec::new();
    let mut i: usize = 0;
    while i < n
        invariant
            n == s@.len(),
            i <= n,
            out@.len() == i,
            forall|j: int| 0 <= j < i ==> connection_view(#[trigger] out@[j]) == connection_view(
                s@[j],
            ),
        decreases n - i,
    {
        out.push(clone_connection(&s[i]));
        i = i + 1;
    }
    proof {
        assert(connections_view(out@) =~= connections_view(s@));
    }
    out
}

fn clone_grid(g: &GridLayout) -> (r: GridLayout)
    ensures
        grid_view(r) == grid_view(*g),
{
    GridLayout { preset: clone_opt_string(&g.preset), rows: g.rows, cols: g.cols }
}

fn clone_workset(w: &Workset) -> (r: Workset)
    ensures
        workset_view(r) == workset_view(*w),
{
    Workset {
        id: w.id.clone(),
        name: w.name.clone(),
        created_at: w.created_at.clone(),
        updated_at: w.updated_at.clone(),
        connections: clone_connections(&w.connections),
        grid_layout: clone_grid(&w.grid_layout),
    }
}

/// Distinct ids, pairwise.
pub open spec fn unique_workset_ids(s: Seq<WorksetV>) -> bool {
    forall|i: int, j: int| 0 <= i < j < s.len() ==> (#[trigger] s[i].id) != (#[trigger] s[j].id)
}

/// Descending by update timestamp, byte-wise: newest first.
pub open spec fn sorted_newest_first(s: Seq<WorksetSummary>) -> bool {
    forall|i: int| 0 <= i < s.len() - 1 ==> lex_le(
        string_bytes(s[i + 1].updated_at),
        string_bytes((#[trigger] s[i]).updated_at),
    )
}

/// Inserts a summary into a newest-first list, keeping the order.
fn insert_summary(out: &mut Vec<WorksetSummary>, s: WorksetSummary)
    requires
        sorted_newest_first(old(out)@),
    ensures
        sorted_newest_first(final(out)@),
        summaries_view(final(out)@).to_multiset() == summaries_view(
            old(out)@,
        ).to_multiset().insert(summary_view(s)),
{
    let ghost orig = out@;
    let mut p: usize = out.len();
    while p > 0 && !bytes_le(s.updated_at.as_str().as_bytes(), out[p - 1].updated_at.as_str().as_bytes())
        invariant
            out@ == orig,
            p <= out@.len(),
            sorted_newest_first(out@),
            forall|q: int| p <= q < out@.len() ==> !lex_le(
                string_bytes(s.updated_at),
                string_bytes((#[trigger] out@[q]).updated_at),
            ),
        decreases p,
    {
        p = p - 1;
    }
    proof {
        assert(forall|q: int| p <= q < orig.len() ==> !lex_le(
            string_bytes(s.updated_at),
            string_bytes((#[trigger] orig[q]).updated_at),
        ));
        assert(sorted_newest_first(orig));
        if p > 0 {
            assert(lex_le(string_bytes(s.updated_at), string_bytes(orig[p - 1].updated_at)));
        }
    }
    out.insert(p, s);
    proof {
        assert(out@ == orig.insert(p as int, s));
        assert forall|i: int| 0 <= i < out@.len() - 1 implies lex_le(
            string_bytes((#[trigger] out@[i + 1]).updated_at),
            string_bytes(out@[i].updated_at),
        ) by {
            if i + 1 < p {
                assert(out@[i] == orig[i] && out@[i + 1] == orig[i + 1]);
                assert(lex_le(string_bytes(orig[i + 1].updated_at), string_bytes(
                    orig[i].updated_at,
                )));
            } else if i + 1 == p {
                assert(out@[i] == orig[i] && out@[i + 1] == s);
                assert(lex_le(string_bytes(s.updated_at), string_bytes(orig[i].updated_at)));
            } else if i == p {
                assert(out@[i] == s && out@[i + 1] == orig[i]);
                lemma_lex_le_total(
                    string_bytes(s.updated_at),
                    string_bytes(orig[i].updated_at),
                );
            } else {
                assert(out@[i] == orig[i - 1] && out@[i + 1] == orig[i]);
            }
        }
        assert(summaries_view(out@) =~= summaries_view(orig).insert(p as int, summary_view(s)));
    }
}

/// The collection of worksets, keyed by id.
pub struct WorksetStore {
    /// Where the persistence layer keeps this store's files, when anywhere.
    pub base_dir: Option<String>,
    pub worksets: Vec<Workset>,
}

impl View for WorksetStore {
    type V = Seq<WorksetV>;

    open spec fn view(&self) -> Seq<WorksetV> {
        self.worksets@.map_values(|w: Workset| workset_view(w))
    }
}

impl WorksetStore {
    /// Ids are unique: at most one workset per id.
    pub open spec fn wf(self) -> bool {
        unique_workset_ids(self@)
    }

    /// An empty store that the persistence layer will fill from `dir`.
    pub fn with_dir(dir: String) -> (r: WorksetStore)
        ensures
            r.wf(),
            r@ =~= Seq::<WorksetV>::empty(),
            r.base_dir == Option::Some(dir),
    {
        let r = WorksetStore { base_dir: Option::Some(dir), worksets: Vec::new() };
        proof {
            assert(r@ =~= Seq::<WorksetV>::empty());
        }
        r
    }

    /// Index of the workset with this id, if any.
    fn find(&self, id: &str) -> (r: Option<usize>)
        ensures
            match r {
                Option::Some(i) => i < self@.len() && self@[i as int].id == id@,
                Option::None => forall|i: int| 0 <= i < self@.len() ==> (#[trigger] self@[i].id)
                    != id@,
            },
    {
        let n: usize = self.worksets.len();
        let mut i: usize = 0;
        while i < n
            invariant
                n == self.worksets@.len(),
                self@.len() == n,
                i <= n,
                forall|j: int| 0 <= j < i ==> (#[trigger] self@[j].id) != id@,
            decreases n - i,
        {
            if str_eq(self.worksets[i].id.as_str(), id) {
                return Option::Some(i);
            }
            i = i + 1;
        }
        Option::None
    }

    /// The summaries of every stored workset, newest first.
    pub fn list(&self) -> (r: Vec<WorksetSummary>)
        ensures
            sorted_newest_first(r@),
            summaries_view(r@).to_multiset() == summaries_of(self@).to_multiset(),
    {
        let n: usize = self.worksets.len();
        let mut out: Vec<WorksetSummary> = Vec::new();
        let mut i: usize = 0;
        while i < n
            invariant
                n == self.worksets@.len(),
                self@.len() == n,
                i <= n,
                sorted_newest_first(out@),
                summaries_view(out@).to_multiset() == summaries_of(
                    self@.take(i as int),
                ).to_multiset(),
            decreases n - i,
        {
            let w = &self.worksets[i];
            let count64: u64 = w.connections.len() as u64;
            let count: u32 = if count64 > 0xffff_ffff {
                0xffff_ffff
            } else {
                count64 as u32
            };
            let s = WorksetSummary {
                id: w.id.clone(),
                name: w.name.clone(),
                connection_count: count,
                updated_at: w.updated_at.clone(),
            };
            proof {
                assert(self@.take(i + 1) =~= self@.take(i as int).push(self@[i as int]));
                assert(summaries_of(self@.take(i + 1)) =~= summaries_of(
                    self@.take(i as int),
                ).push(summary_of(self@[i as int])));
                assert(self@[i as int] == workset_view(self.worksets@[i as int]));
                assert(summary_view(s) == summary_of(self@[i as int]));
            }
            insert_summary(&mut out, s);
            i = i + 1;
        }
        proof {
            assert(self@.take(n as int) =~= self@);
        }
        out
    }

    /// The workset under this id, when present.
    pub fn get(&self, id: &str) -> (r: Option<Workset>)
        ensures
            match r {
                Option::Some(w) => exists|i: int|
                    0 <= i < self@.len() && (#[trigger] self@[i]).id == id@ && workset_view(w)
                        == self@[i],
                Option::None => forall|i: int| 0 <= i < self@.len() ==> (#[trigger] self@[i].id)
                    != id@,
            },
    {
        match self.find(id) {
            Option::Some(i) => Option::Some(clone_workset(&self.worksets[i])),
            Option::None => Option::None,
        }
    }

    /// Builds a fresh workset from an input: a newly generated 36-character
    /// id, and equal creation and update timestamps.
    pub fn create(&self, input: CreateWorksetInput) -> (r: Workset)
        ensures
            workset_view(r).name == input.name@,
            workset_view(r).connections == connections_view(input.connections@),
            workset_view(r).grid_layout == grid_view(input.grid_layout),
            workset_view(r).created_at == workset_view(r).updated_at,
            workset_view(r).id.len() == 36,
    {
        let now = now_iso8601();
        let created_at = now.clone();
        Workset {
            id: new_uuid_string(),
            name: input.name,
            created_at,
            updated_at: now,
            connections: input.connections,
            grid_layout: input.grid_layout,
        }
    }

    /// Validates the input, builds the workset, and stores it. Succeeds
    /// exactly on valid inputs; the store then holds the new workset under
    /// its fresh id (displacing any workset that carried the same id).
    pub fn create_result(&mut self, input: CreateWorksetInput) -> (r: Result<Workset, StoreError>)
        requires
            old(self).wf(),
        ensures
            final(self).wf(),
            final(self).base_dir == old(self).base_dir,
            r is Ok <==> spec_valid_create(
                input.name@,
                connections_view(input.connections@),
                grid_view(input.grid_layout),
            ),
            match r {
                Result::Ok(w) => {
                    &&& workset_view(w).name == input.name@
                    &&& workset_view(w).connections == connections_view(input.connections@)
                    &&& workset_view(w).grid_layout == grid_view(input.grid_layout)
                    &&& workset_view(w).created_at == workset_view(w).updated_at
                    &&& workset_view(w).id.len() == 36
                    &&& {
                        ||| final(self)@ == old(self)@.push(workset_view(w))
                        ||| exists|i: int|
                            0 <= i < old(self)@.len() && (#[trigger] old(self)@[i]).id
                                == workset_view(w).id && final(self)@ == old(self)@.remove(i).push(
                                workset_view(w),
                            )
                    }
                },
                Result::Err(e) => final(self)@ == old(self)@ && e is Validation,
            },
    {
        match validate_create(&input) {
            Result::Ok(()) => {},
            Result::Err(e) => {
                return Result::Err(e);
            },
        }
        let w = self.create(input);
        let stored = clone_workset(&w);
        let ghost pre = self@;
        match self.find(w.id.as_str()) {
            Option::Some(i) => {
                let _ = self.worksets.remove(i);
                proof {
                    assert(self@ =~= pre.remove(i as int));
                    assert forall|a: int, b: int| 0 <= a < b < self@.len() implies (
                    #[trigger] self@[a].id) != (#[trigger] self@[b].id) by {
                        let a0 = if a < i {
                            a
                        } else {
                            a + 1
                        };
                        let b0 = if b < i {
                            b
                        } else {
                            b + 1
                        };
                        assert(self@[a] == pre[a0] && self@[b] == pre[b0]);
                    }
                    assert forall|j: int| 0 <= j < self@.len() implies (#[trigger] self@[j].id)
                        != workset_view(w).id by {
                        let j0 = if j < i {
                            j
                        } else {
                            j + 1
                        };
                        assert(self@[j] == pre[j0]);
                    }
                }
            },
            Option::None => {},
        }
        let ghost mid = self@;
        self.worksets.push(stored);
        proof {
            assert(self@ =~= mid.push(workset_view(w)));
            assert forall|a: int, b: int| 0 <= a < b < self@.len() implies (
            #[trigger] self@[a].id) != (#[trigger] self@[b].id) by {
                if b < self@.len() - 1 {
                    assert(self@[a] == mid[a] && self@[b] == mid[b]);
                } else {
                    assert(self@[a] == mid[a]);
                }
            }
        }
        Result::Ok(w)
    }

    /// Applies a partial update under the lock of the surrounding layer:
    /// absent parts keep their stored values, given parts are validated,
    /// the update timestamp is renewed. `Ok(None)` when the id is unknown.
    pub fn update_result(&mut self, id: &str, input: UpdateWorksetInput) -> (r: Result<
        Option<Workset>,
        StoreError,
    >)
        requires
            old(self).wf(),
        ensures
            final(self).wf(),
            final(self).base_dir == old(self).base_dir,
            match r {
                Result::Ok(Option::None) => final(self)@ == old(self)@ && (forall|i: int|
                    0 <= i < old(self)@.len() ==> (#[trigger] old(self)@[i].id) != id@),
                Result::Ok(Option::Some(w)) => exists|i: int|
                    {
                        &&& 0 <= i < old(self)@.len()
                        &&& (#[trigger] old(self)@[i]).id == id@
                        &&& workset_view(w).id == id@
                        &&& workset_view(w).created_at == old(self)@[i].created_at
                        &&& workset_view(w).name == match input.name {
                            Option::Some(n) => n@,
                            Option::None => old(self)@[i].name,
                        }
                        &&& workset_view(w).connections == match input.connections {
                            Option::Some(c) => connections_view(c@),
                            Option::None => old(self)@[i].connections,
                        }
                        &&& workset_view(w).grid_layout == match input.grid_layout {
                            Option::Some(g) => grid_view(g),
                            Option::None => old(self)@[i].grid_layout,
                        }
                        &&& final(self)@ == old(self)@.update(i, workset_view(w))
                    },
                Result::Err(e) => final(self)@ == old(self)@ && e is Validation,
            },
            r is Err <==> ((exists|i: int| 0 <= i < old(self)@.len() && (#[trigger] old(self)@[i].id) == id@) && {
                ||| (match input.name {
                    Option::Some(n) => is_blank(n@),
                    Option::None => false,
                })
                ||| (match input.connections {
                    Option::Some(c) => !spec_valid_connections(connections_view(c@)),
                    Option::None => false,
                })
                ||| (match input.grid_layout {
                    Option::Some(g) => !spec_valid_grid(grid_view(g)),
                    Option::None => false,
                })
            }),
    {
        let idx: usize = match self.find(id) {
            Option::Some(i) => i,
            Option::None => {
                return Result::Ok(Option::None);
            },
        };
        let ghost pre = self@;
        let UpdateWorksetInput { name, connections, grid_layout } = input;
        let new_name: Option<String> = match name {
            Option::Some(n) => {
                if str_is_blank(n.as_str()) {
                    return Result::Err(
                        StoreError::Validation("name must not be empty".to_owned()),
                    );
                }
                Option::Some(n)
            },
            Option::None => Option::None,
        };
        let new_connections: Option<Vec<ConnectionConfig>> = match connections {
            Option::Some(c) => {
                match validate_connections(c.as_slice()) {
                    Result::Ok(()) => {},
                    Result::Err(e) => {
                        return Result::Err(e);
                    },
                }
                Option::Some(c)
            },
            Option::None => Option::None,
        };
        let new_grid: Option<GridLayout> = match grid_layout {
            Option::Some(g) => {
                match validate_grid_layout(&g) {
                    Result::Ok(()) => {},
                    Result::Err(e) => {
                        return Result::Err(e);
                    },
                }
                Option::Some(g)
            },
            Option::None => Option::None,
        };
        let old_w = self.worksets.remove(idx);
        let merged = Workset {
            id: old_w.id,
            name: match new_name {
                Option::Some(n) => n,
                Option::None => old_w.name,
            },
            created_at: old_w.created_at,
            updated_at: now_iso8601(),
            connections: match new_connections {
                Option::Some(c) => c,
                Option::None => old_w.connections,
            },
            grid_layout: match new_grid {
                Option::Some(g) => g,
                Option::None => old_w.grid_layout,
            },
        };
        let returned = clone_workset(&merged);
        self.worksets.insert(idx, merged);
        proof {
            assert(self@ =~= pre.update(idx as int, workset_view(returned)));
            assert forall|a: int, b: int| 0 <= a < b < self@.len() implies (
            #[trigger] self@[a].id) != (#[trigger] self@[b].id) by {
                assert(pre[a].id != pre[b].id);
                assert(self@[a] == if a == idx {
                    pre.update(idx as int, workset_view(returned))[a]
                } else {
                    pre[a]
                });
            }
        }
        Result::Ok(Option::Some(returned))
    }

    /// `update_result`, with every failure folded to `None`.
    pub fn update(&mut self, id: &str, input: UpdateWorksetInput) -> (r: Option<Workset>)
        requires
            old(self).wf(),
        ensures
            final(self).wf(),
            final(self).base_dir == old(self).base_dir,
            match r {
                Option::Some(w) => exists|i: int|
                    {
                        &&& 0 <= i < old(self)@.len()
                        &&& (#[trigger] old(self)@[i]).id == id@
                        &&& workset_view(w).id == id@
                        &&& workset_view(w).created_at == old(self)@[i].created_at
                        &&& final(self)@ == old(self)@.update(i, workset_view(w))
                    },
                Option::None => final(self)@ == old(self)@,
            },
    {
        match self.update_result(id, input) {
            Result::Ok(o) => o,
            Result::Err(_) => Option::None,
        }
    }

    /// Removes the workset under this id; reports whether one was there.
    pub fn delete_result(&mut self, id: &str) -> (r: Result<bool, StoreError>)
        requires
            old(self).wf(),
        ensures
            final(self).wf(),
            final(self).base_dir == old(self).base_dir,
            match r {
                Result::Ok(true) => exists|i: int|
                    0 <= i < old(self)@.len() && (#[trigger] old(self)@[i]).id == id@ && final(self)@ == old(self)@.remove(i),
                Result::Ok(false) => final(self)@ == old(self)@ && (forall|i: int|
                    0 <= i < old(self)@.len() ==> (#[trigger] old(self)@[i].id) != id@),
                Result::Err(_) => false,
            },
    {
        let ghost pre = self@;
        match self.find(id) {
            Option::Some(i) => {
                let _ = self.worksets.remove(i);
                proof {
                    assert(self@ =~= pre.remove(i as int));
                    assert forall|a: int, b: int| 0 <= a < b < self@.len() implies (
                    #[trigger] self@[a].id) != (#[trigger] self@[b].id) by {
                        let a0 = if a < i {
                            a
                        } else {
                            a + 1
                        };
                        let b0 = if b < i {
                            b
                        } else {
                            b + 1
                        };
                        assert(self@[a] == pre[a0] && self@[b] == pre[b0]);
                    }
                }
                Result::Ok(true)
            },
            Option::None => Result::Ok(false),
        }
    }

    /// `delete_result`, with every failure folded to `false`.
    pub fn delete(&mut self, id: &str) -> (r: bool)
        requires
            old(self).wf(),
        ensures
            final(self).wf(),
            final(self).base_dir == old(self).base_dir,
            r ==> exists|i: int|
                0 <= i < old(self)@.len() && (#[trigger] old(self)@[i]).id == id@ && final(self)@
                    == old(self)@.remove(i),
            !r ==> final(self)@ == old(self)@,
    {
        match self.delete_result(id) {
            Result::Ok(b) => b,
            Result::Err(_) => false,
        }
    }
}

} // verus!
