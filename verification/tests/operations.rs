use std::collections::{BTreeMap, BTreeSet};

use codeg::app_error::{AppCommandError, AppErrorCode, DbError};
use codeg::connection::{
    record_with_secrets, secrets_readable, to_record, token_readable, ConnectionPatch,
    ConnectionRow, RemoteWorkspaceConnectionRecord, Timestamp,
};
use codeg::create::{create, CreateState};
use codeg::header::RemoteWorkspaceHeader;
use codeg::migrate::{migrate_plaintext_secrets, MigrateState};
use codeg::protocol::{store_secrets, Reply, Request, SecretWrite, StoreProgress};
use codeg::queue::RowQueue;
use codeg::read::{get, list, ReadState};
use codeg::remove::{delete, DeleteState};
use codeg::reorder::{reorder, ReorderState};
use codeg::update::{update, UpdateState};

fn header(name: &str, value: &str) -> RemoteWorkspaceHeader {
    RemoteWorkspaceHeader {
        name: name.to_string(),
        value: value.to_string(),
    }
}

/// An operation, whichever it is.
trait Operation: Sized {
    fn pending(&self) -> Option<Request>;
    fn answered(self, reply: Reply, now: Timestamp) -> Self;
}

impl Operation for CreateState {
    fn pending(&self) -> Option<Request> {
        self.request()
    }
    fn answered(self, reply: Reply, now: Timestamp) -> Self {
        self.advance(reply, now)
    }
}

impl Operation for UpdateState {
    fn pending(&self) -> Option<Request> {
        self.request()
    }
    fn answered(self, reply: Reply, now: Timestamp) -> Self {
        self.advance(reply, now)
    }
}

impl Operation for ReadState {
    fn pending(&self) -> Option<Request> {
        self.request()
    }
    fn answered(self, reply: Reply, now: Timestamp) -> Self {
        self.advance(reply, now)
    }
}

impl Operation for DeleteState {
    fn pending(&self) -> Option<Request> {
        self.request()
    }
    fn answered(self, reply: Reply, now: Timestamp) -> Self {
        self.advance(reply, now)
    }
}

impl Operation for MigrateState {
    fn pending(&self) -> Option<Request> {
        self.request()
    }
    fn answered(self, reply: Reply, now: Timestamp) -> Self {
        self.advance(reply, now)
    }
}

impl Operation for ReorderState {
    fn pending(&self) -> Option<Request> {
        self.request()
    }
    fn answered(self, reply: Reply, now: Timestamp) -> Self {
        self.advance(reply, now)
    }
}

/// A database and a secret store in memory, with faults that can be switched on.
#[derive(Default)]
struct Memory {
    rows: BTreeMap<i32, ConnectionRow>,
    before: Option<BTreeMap<i32, ConnectionRow>>,
    last_id: i32,
    clock: i64,
    tokens: BTreeMap<i32, String>,
    headers: BTreeMap<i32, Vec<RemoteWorkspaceHeader>>,
    /// Requests, counted from 0 within an operation, that fail.
    failing: BTreeSet<usize>,
    /// The store reports success and keeps nothing.
    forgetful: bool,
    /// How many requests the last operation made.
    asked: usize,
}

/// What a `headers` column reads as.
fn parse_headers(text: &str) -> Option<Vec<RemoteWorkspaceHeader>> {
    let value: serde_json::Value = serde_json::from_str(text).ok()?;
    let text_of = |item: &serde_json::Value, key: &str| {
        item.get(key)
            .and_then(|v| v.as_str())
            .unwrap_or("")
            .to_string()
    };
    Some(
        value
            .as_array()?
            .iter()
            .map(|item| RemoteWorkspaceHeader {
                name: text_of(item, "name"),
                value: text_of(item, "value"),
            })
            .collect(),
    )
}

fn patched(row: &ConnectionRow, patch: ConnectionPatch) -> ConnectionRow {
    ConnectionRow {
        id: row.id,
        name: patch.name.unwrap_or(row.name.clone()),
        base_url: patch.base_url.unwrap_or(row.base_url.clone()),
        token: patch.token.unwrap_or(row.token.clone()),
        headers: patch.headers.unwrap_or(row.headers.clone()),
        sort_order: patch.sort_order.unwrap_or(row.sort_order),
        created_at: row.created_at,
        updated_at: patch.updated_at.unwrap_or(row.updated_at),
    }
}

impl Memory {
    fn now(&mut self) -> Timestamp {
        self.clock += 1;
        Timestamp {
            seconds: self.clock,
            nanos: 5,
        }
    }

    fn answer(&mut self, request: Request) -> Reply {
        let turn = self.asked;
        self.asked += 1;
        if self.failing.contains(&turn) {
            return Reply::Failed(format!("fault {turn}"));
        }
        match request {
            Request::FindAll => Reply::Rows(self.rows.values().cloned().collect()),
            Request::FindOrdered => {
                let mut rows: Vec<ConnectionRow> = self.rows.values().cloned().collect();
                rows.sort_by_key(|row| (row.sort_order, row.name.clone()));
                Reply::Rows(rows)
            }
            Request::FindTop => {
                Reply::Row(self.rows.values().max_by_key(|row| row.sort_order).cloned())
            }
            Request::FindById(id) => Reply::Row(self.rows.get(&id).cloned()),
            Request::Insert(new) => {
                self.last_id += 1;
                let row = ConnectionRow {
                    id: self.last_id,
                    name: new.name,
                    base_url: new.base_url,
                    token: new.token,
                    headers: new.headers,
                    sort_order: new.sort_order,
                    created_at: new.created_at,
                    updated_at: new.updated_at,
                };
                self.rows.insert(row.id, row.clone());
                Reply::Saved(row)
            }
            Request::Update(patch) => match self.rows.get(&patch.id) {
                Some(row) => {
                    let row = patched(row, patch);
                    self.rows.insert(row.id, row.clone());
                    Reply::Saved(row)
                }
                None => Reply::Failed("no such row".to_string()),
            },
            Request::Delete(id) => {
                self.rows.remove(&id);
                Reply::Done
            }
            Request::Begin => {
                self.before = Some(self.rows.clone());
                Reply::Done
            }
            Request::Commit => {
                self.before = None;
                Reply::Done
            }
            Request::ReadToken(id) => Reply::Token(self.tokens.get(&id).cloned()),
            Request::ReadHeaders(id) => Reply::Headers(self.headers.get(&id).cloned()),
            Request::ParseHeaders(text) => Reply::Headers(parse_headers(&text)),
            Request::StoreToken(id, token) => {
                if !self.forgetful {
                    self.tokens.insert(id, token);
                }
                Reply::Done
            }
            Request::StoreHeaders(id, headers) => {
                if !self.forgetful {
                    self.headers.insert(id, headers);
                }
                Reply::Done
            }
            Request::DeleteSecrets(id) => {
                self.tokens.remove(&id);
                self.headers.remove(&id);
                Reply::Done
            }
        }
    }

    fn run<O: Operation>(&mut self, start: O) -> O {
        self.asked = 0;
        let mut state = start;
        loop {
            match state.pending() {
                Some(request) => {
                    let reply = self.answer(request);
                    let now = self.now();
                    state = state.answered(reply, now);
                }
                None => {
                    // A transaction that was not committed is given up.
                    if let Some(rows) = self.before.take() {
                        self.rows = rows;
                    }
                    self.failing.clear();
                    return state;
                }
            }
        }
    }

    fn create(
        &mut self,
        name: &str,
        base_url: &str,
        token: &str,
        headers: &[RemoteWorkspaceHeader],
    ) -> Result<RemoteWorkspaceConnectionRecord, AppCommandError> {
        let now = self.now();
        match self.run(create(name, base_url, token, headers, now)) {
            CreateState::Finished(r) => r,
            other => panic!("{other:?}"),
        }
    }

    fn update(
        &mut self,
        id: i32,
        name: &str,
        base_url: &str,
        token: &str,
        headers: &[RemoteWorkspaceHeader],
    ) -> Result<RemoteWorkspaceConnectionRecord, AppCommandError> {
        match self.run(update(id, name, base_url, token, headers)) {
            UpdateState::Finished(r) => r,
            other => panic!("{other:?}"),
        }
    }

    fn list(&mut self) -> Result<Vec<RemoteWorkspaceConnectionRecord>, DbError> {
        match self.run(list()) {
            ReadState::Finished(r) => r,
            other => panic!("{other:?}"),
        }
    }

    fn get(&mut self, id: i32) -> Result<Option<RemoteWorkspaceConnectionRecord>, DbError> {
        match self.run(get(id)) {
            ReadState::Finished(r) => r.map(|records| {
                assert!(records.len() <= 1);
                records.into_iter().next()
            }),
            other => panic!("{other:?}"),
        }
    }

    fn delete(&mut self, id: i32) -> Result<Option<String>, DbError> {
        match self.run(delete(id)) {
            DeleteState::Finished(r) => r,
            other => panic!("{other:?}"),
        }
    }

    fn migrate(&mut self) -> Result<usize, DbError> {
        match self.run(migrate_plaintext_secrets()) {
            MigrateState::Finished(r) => r,
            other => panic!("{other:?}"),
        }
    }

    fn reorder(&mut self, ids: Vec<i32>) -> Result<(), AppCommandError> {
        match self.run(reorder(ids)) {
            ReorderState::Finished(r) => r,
            other => panic!("{other:?}"),
        }
    }

    /// A row as an older version wrote it: token and headers in the clear.
    fn seed_row(&mut self, token: &str, headers_json: &str) -> i32 {
        let anchor = self
            .create("Anchor", "http://127.0.0.1:3080", "anchor-token", &[])
            .expect("anchor row");
        self.last_id += 1;
        let row = ConnectionRow {
            id: self.last_id,
            name: "Legacy".to_string(),
            base_url: "http://127.0.0.1:3099".to_string(),
            token: token.to_string(),
            headers: headers_json.to_string(),
            sort_order: 1,
            created_at: anchor.created_at,
            updated_at: anchor.updated_at,
        };
        self.rows.insert(row.id, row);
        self.last_id
    }
}

#[test]
fn create_list_update_delete_roundtrip() {
    let mut db = Memory::default();
    let created = db
        .create(
            "Local 3080",
            "http://127.0.0.1:3080/",
            "secret-token",
            &[header("CF-Access-Client-Id", "abc123")],
        )
        .unwrap();
    assert_eq!(created.name, "Local 3080");
    assert_eq!(created.base_url, "http://127.0.0.1:3080");
    assert_eq!(created.token, "secret-token");
    assert_eq!(
        created.headers,
        vec![header("CF-Access-Client-Id", "abc123")]
    );
    assert_eq!(created.sort_order, 0);

    // The secrets live in the store, and the columns stay empty.
    let stored = db.rows[&created.id].clone();
    assert_eq!(stored.token, "");
    assert_eq!(stored.headers, "[]");

    let listed = db.list().unwrap();
    assert_eq!(listed.len(), 1);
    assert_eq!(listed[0].id, created.id);
    assert_eq!(listed[0].token, "secret-token");
    assert_eq!(listed[0].headers, created.headers);

    let updated = db
        .update(
            created.id,
            "Server A",
            "https://codeg.example.com/",
            "next-token",
            &[],
        )
        .unwrap();
    assert_eq!(updated.name, "Server A");
    assert_eq!(updated.base_url, "https://codeg.example.com");
    assert!(updated.headers.is_empty());
    assert_eq!(
        db.tokens.get(&created.id).map(String::as_str),
        Some("next-token")
    );

    db.delete(created.id).unwrap();
    assert!(db.list().unwrap().is_empty());
    assert!(db.tokens.get(&created.id).is_none());
    assert!(db.headers.get(&created.id).is_none());
}

#[test]
fn migrate_moves_plaintext_secrets_into_the_store() {
    let mut db = Memory::default();
    let id = db.seed_row(
        "legacy-token",
        r#"[{"name":"CF-Access-Client-Id","value":"abc123"}]"#,
    );

    assert_eq!(db.migrate().unwrap(), 1);

    assert_eq!(
        db.tokens.get(&id).map(String::as_str),
        Some("legacy-token")
    );
    assert_eq!(
        db.headers.get(&id).cloned(),
        Some(vec![header("CF-Access-Client-Id", "abc123")])
    );
    let cleared = db.rows[&id].clone();
    assert_eq!(cleared.token, "");
    assert_eq!(cleared.headers, "[]");

    let record = db.get(id).unwrap().unwrap();
    assert_eq!(record.token, "legacy-token");
    assert_eq!(record.headers, vec![header("CF-Access-Client-Id", "abc123")]);

    // Idempotent: nothing left to move on the next start.
    assert_eq!(db.migrate().unwrap(), 0);
}

#[test]
fn unmigrated_row_still_resolves_its_secrets() {
    let mut db = Memory::default();
    let id = db.seed_row("legacy-token", "[]");
    let record = db.get(id).unwrap().unwrap();
    assert_eq!(record.token, "legacy-token");
}

#[test]
fn secrets_readable_follows_the_store() {
    let mut db = Memory::default();
    let headers = vec![header("CF-Access-Client-Id", "abc123")];
    db.answer(Request::StoreToken(7, "tok".to_string()));
    db.answer(Request::StoreHeaders(7, headers.clone()));
    let readable = |db: &Memory, token: &str| {
        secrets_readable(
            &db.tokens.get(&7).cloned(),
            &db.headers.get(&7).cloned(),
            token,
            &headers,
        )
    };
    assert!(readable(&db, "tok"));
    assert!(!readable(&db, "different"));

    db.answer(Request::DeleteSecrets(7));
    assert!(!readable(&db, "tok"));
}

#[test]
fn list_reads_a_row_written_without_the_headers_column() {
    let mut db = Memory::default();
    let seed = db
        .create("Seed", "http://127.0.0.1:3080", "token", &[])
        .unwrap();
    db.last_id += 1;
    let row = ConnectionRow {
        id: db.last_id,
        name: "Legacy".to_string(),
        base_url: "http://127.0.0.1:3099".to_string(),
        sort_order: 1,
        ..db.rows[&seed.id].clone()
    };
    db.rows.insert(row.id, row);

    let listed = db.list().unwrap();
    assert_eq!(
        listed.iter().map(|c| c.name.as_str()).collect::<Vec<_>>(),
        vec!["Seed", "Legacy"]
    );
    assert!(listed[1].headers.is_empty());

    // `create` re-reads every column to find the max sort order, so the
    // legacy row has to survive that read too.
    let next = db
        .create("Next", "http://127.0.0.1:3081", "token", &[])
        .unwrap();
    assert_eq!(next.sort_order, 2);
    assert_ne!(next.id, seed.id);
}

#[test]
fn reorder_updates_list_order() {
    let mut db = Memory::default();
    let first = db
        .create("First", "http://127.0.0.1:3080", "token-a", &[])
        .unwrap();
    let second = db
        .create("Second", "http://127.0.0.1:3081", "token-b", &[])
        .unwrap();
    let third = db
        .create("Third", "http://127.0.0.1:3082", "token-c", &[])
        .unwrap();

    db.reorder(vec![third.id, first.id, second.id]).unwrap();

    let listed = db.list().unwrap();
    assert_eq!(
        listed.iter().map(|item| item.id).collect::<Vec<_>>(),
        vec![third.id, first.id, second.id]
    );
    assert_eq!(
        listed
            .iter()
            .map(|item| item.sort_order)
            .collect::<Vec<_>>(),
        vec![0, 1, 2]
    );
}

#[test]
fn reorder_rejects_partial_or_duplicate_ids() {
    let mut db = Memory::default();
    let first = db
        .create("First", "http://127.0.0.1:3080", "token-a", &[])
        .unwrap();
    let second = db
        .create("Second", "http://127.0.0.1:3081", "token-b", &[])
        .unwrap();

    let duplicate = db.reorder(vec![first.id, first.id]).unwrap_err();
    assert!(matches!(duplicate.code, AppErrorCode::InvalidInput));

    let partial = db.reorder(vec![second.id]).unwrap_err();
    assert!(matches!(partial.code, AppErrorCode::InvalidInput));

    let listed = db.list().unwrap();
    assert_eq!(
        listed.iter().map(|item| item.id).collect::<Vec<_>>(),
        vec![first.id, second.id]
    );
}

/// Three connections, and their ids.
fn three(db: &mut Memory) -> Vec<i32> {
    ["a", "b", "c"]
        .iter()
        .map(|name| {
            let headers = [header("X-Name", name)];
            db.create(name, "http://127.0.0.1:3080", name, &headers)
                .unwrap()
                .id
        })
        .collect()
}

#[test]
fn a_draft_is_checked_before_anything_is_asked() {
    let mut db = Memory::default();
    let bad = [header("Host", "x")];
    let err = db.create(" ", "nowhere", " ", &bad).unwrap_err();
    assert_eq!(err.message, "Custom header \"Host\" is reserved by Codeg");
    let err = db.create(" ", "nowhere", " ", &[]).unwrap_err();
    assert_eq!(err.message, "Remote connection name is required");
    let err = db.create("n", "nowhere", " ", &[]).unwrap_err();
    assert_eq!(err.message, "Remote Workspace URL is invalid");
    let err = db.create("n", "http://x", " ", &[]).unwrap_err();
    assert_eq!(err.message, "Remote connection token is required");
    assert_eq!(db.asked, 0);
    assert!(db.rows.is_empty());
}

#[test]
fn a_created_connection_reads_back() {
    let mut db = Memory::default();
    three(&mut db);
    let headers = [header(" X-A ", "1"), header("", ""), header("X-A", "2")];
    let created = db
        .create(" Name ", "https://x/", " tok ", &headers)
        .unwrap();
    assert_eq!(created.name, "Name");
    assert_eq!(created.token, "tok");
    assert_eq!(created.headers, vec![header("X-A", "1"), header("X-A", "2")]);
    assert_eq!(created.sort_order, 3);
    assert_eq!(created.created_at, created.updated_at);
    assert_eq!(db.get(created.id).unwrap(), Some(created.clone()));
    assert_eq!(db.list().unwrap().last(), Some(&created));
}

#[test]
fn a_connection_goes_behind_the_highest_place_there_is() {
    let mut db = Memory::default();
    let ids = three(&mut db);
    db.rows.get_mut(&ids[0]).unwrap().sort_order = 41;
    let created = db.create("d", "http://x", "t", &[]).unwrap();
    assert_eq!(created.sort_order, 42);
    for row in db.rows.values_mut() {
        row.sort_order = -7;
    }
    let created = db.create("e", "http://x", "t", &[]).unwrap();
    assert_eq!(created.sort_order, -6);
}

#[test]
fn refused_secrets_take_the_new_row_back() {
    // The token is refused, or the headers are.
    for turn in [2, 3] {
        let mut db = Memory::default();
        let ids = three(&mut db);
        db.failing.insert(turn);
        let err = db.create("d", "http://x", "t", &[]).unwrap_err();
        assert_eq!(err.code, AppErrorCode::IoError);
        assert_eq!(err.message, "Failed to store remote connection credentials");
        assert_eq!(err.detail, Some(format!("fault {turn}")));
        assert_eq!(db.rows.keys().copied().collect::<Vec<_>>(), ids);
    }
}

#[test]
fn a_row_that_cannot_be_taken_back_does_not_hide_the_reason() {
    let mut db = Memory::default();
    db.failing.insert(2);
    db.failing.insert(3);
    let err = db.create("d", "http://x", "t", &[]).unwrap_err();
    assert_eq!(err.code, AppErrorCode::IoError);
    assert_eq!(err.detail.as_deref(), Some("fault 2"));
    assert_eq!(db.rows.len(), 1);
}

#[test]
fn a_database_that_fails_ends_a_create() {
    for turn in [0, 1] {
        let mut db = Memory::default();
        db.failing.insert(turn);
        let err = db.create("d", "http://x", "t", &[]).unwrap_err();
        assert_eq!(err.code, AppErrorCode::DatabaseError);
        assert_eq!(err.detail, Some(format!("fault {turn}")));
        assert_eq!(db.asked, turn + 1);
        assert!(db.rows.is_empty());
    }
}

#[test]
fn an_update_changes_one_connection() {
    let mut db = Memory::default();
    let ids = three(&mut db);
    let before = db.list().unwrap();
    let updated = db
        .update(ids[1], " B ", "https://b/", " tb ", &[header("X-B", "b")])
        .unwrap();
    assert_eq!(updated.id, ids[1]);
    assert_eq!(updated.sort_order, before[1].sort_order);
    assert_eq!(updated.created_at, before[1].created_at);
    assert_ne!(updated.updated_at, before[1].updated_at);
    assert_eq!(db.get(ids[1]).unwrap(), Some(updated.clone()));
    assert_eq!(db.rows[&ids[1]].token, "");
    assert_eq!(db.rows[&ids[1]].headers, "[]");
    let after = db.list().unwrap();
    assert_eq!(after[0], before[0]);
    assert_eq!(after[1], updated);
    assert_eq!(after[2], before[2]);
}

#[test]
fn an_update_clears_what_stood_in_the_columns() {
    let mut db = Memory::default();
    let id = db.seed_row("old", r#"[{"name":"X","value":"y"}]"#);
    db.update(id, "n", "http://x", "new", &[]).unwrap();
    assert_eq!(db.rows[&id].token, "");
    assert_eq!(db.rows[&id].headers, "[]");
    let record = db.get(id).unwrap().unwrap();
    assert_eq!(record.token, "new");
    assert_eq!(record.headers, vec![]);
}

#[test]
fn an_update_checks_in_its_own_order() {
    let mut db = Memory::default();
    let ids = three(&mut db);
    let bad = [header("Host", "x")];
    // The headers and the token come before the row, the rest after it.
    let err = db.update(99, "", "", "", &bad).unwrap_err();
    assert_eq!(err.message, "Custom header \"Host\" is reserved by Codeg");
    let err = db.update(99, "", "", "", &[]).unwrap_err();
    assert_eq!(err.message, "Remote connection token is required");
    assert_eq!(db.asked, 0);
    let err = db.update(99, "", "", "t", &[]).unwrap_err();
    assert_eq!(err.code, AppErrorCode::NotFound);
    assert_eq!(err.message, "Remote connection 99 not found");
    assert_eq!(db.asked, 1);
    let err = db.update(ids[0], "", "", "t", &[]).unwrap_err();
    assert_eq!(err.message, "Remote connection name is required");
    let err = db.update(ids[0], "n", "", "t", &[]).unwrap_err();
    assert_eq!(err.message, "Remote Workspace URL is invalid");
    let err = db.update(-5, "n", "http://x", "t", &[]).unwrap_err();
    assert_eq!(err.message, "Remote connection -5 not found");
    let err = db.update(i32::MIN, "n", "http://x", "t", &[]).unwrap_err();
    assert_eq!(err.message, "Remote connection -2147483648 not found");
}

#[test]
fn an_update_that_fails_says_who_failed() {
    for (turn, code) in [
        (0, AppErrorCode::DatabaseError),
        (1, AppErrorCode::DatabaseError),
        (2, AppErrorCode::IoError),
        (3, AppErrorCode::IoError),
    ] {
        let mut db = Memory::default();
        let ids = three(&mut db);
        let row = db.rows[&ids[0]].clone();
        db.failing.insert(turn);
        let err = db.update(ids[0], "n", "http://x", "t", &[]).unwrap_err();
        assert_eq!(err.code, code);
        assert_eq!(err.detail, Some(format!("fault {turn}")));
        assert_eq!(db.asked, turn + 1);
        // Only a store that fails leaves a changed row.
        assert_eq!(db.rows[&ids[0]] == row, turn < 2);
    }
}

#[test]
fn reading_takes_the_store_before_the_columns() {
    let mut db = Memory::default();
    let id = db.seed_row("column", r#"[{"name":"X","value":"column"},{"name":"Y"}]"#);
    let record = db.get(id).unwrap().unwrap();
    assert_eq!(record.token, "column");
    assert_eq!(record.headers, vec![header("X", "column"), header("Y", "")]);
    db.tokens.insert(id, String::new());
    db.headers.insert(id, vec![]);
    let record = db.get(id).unwrap().unwrap();
    assert_eq!(record.token, "");
    assert_eq!(record.headers, vec![]);
    // The column is not read where the store has headers.
    assert_eq!(db.asked, 3);
}

#[test]
fn a_column_that_cannot_be_read_is_no_headers() {
    let mut db = Memory::default();
    let id = db.seed_row("t", "not json");
    assert_eq!(db.get(id).unwrap().unwrap().headers, vec![]);
}

#[test]
fn a_connection_that_is_not_there_is_not_read() {
    let mut db = Memory::default();
    three(&mut db);
    assert_eq!(db.get(99).unwrap(), None);
    assert_eq!(db.asked, 1);
}

#[test]
fn connections_are_listed_by_place_and_name() {
    let mut db = Memory::default();
    let ids = three(&mut db);
    db.rows.get_mut(&ids[0]).unwrap().sort_order = 2;
    db.rows.get_mut(&ids[0]).unwrap().name = "z".to_string();
    let names: Vec<String> = db.list().unwrap().into_iter().map(|r| r.name).collect();
    assert_eq!(names, vec!["b", "c", "z"]);
    let tokens: Vec<String> = db.list().unwrap().into_iter().map(|r| r.token).collect();
    assert_eq!(tokens, vec!["b", "c", "a"]);
}

#[test]
fn a_database_that_fails_ends_a_read() {
    let mut db = Memory::default();
    let ids = three(&mut db);
    db.failing.insert(0);
    assert_eq!(db.list().unwrap_err().message, "fault 0");
    db.failing.insert(0);
    assert_eq!(db.get(ids[0]).unwrap_err().message, "fault 0");
}

#[test]
fn a_deleted_connection_is_gone_and_the_others_stay() {
    let mut db = Memory::default();
    let ids = three(&mut db);
    let before = db.list().unwrap();
    assert_eq!(db.delete(ids[1]), Ok(None));
    assert_eq!(db.get(ids[1]).unwrap(), None);
    assert_eq!(
        db.list().unwrap(),
        vec![before[0].clone(), before[2].clone()]
    );
    // Deleting it once more is no error.
    assert_eq!(db.delete(ids[1]), Ok(None));
}

#[test]
fn a_store_that_fails_does_not_keep_the_connection() {
    let mut db = Memory::default();
    let ids = three(&mut db);
    db.failing.insert(1);
    assert_eq!(db.delete(ids[0]), Ok(Some("fault 1".to_string())));
    assert_eq!(db.get(ids[0]).unwrap(), None);
    db.failing.insert(0);
    assert_eq!(db.delete(ids[1]).unwrap_err().message, "fault 0");
    assert!(db.get(ids[1]).unwrap().is_some());
    assert!(db.tokens.contains_key(&ids[1]));
}

#[test]
fn a_store_that_keeps_nothing_does_not_cost_the_plaintext() {
    let mut db = Memory::default();
    let json = r#"[{"name":"X","value":"y"}]"#;
    let id = db.seed_row("legacy-token", json);
    db.forgetful = true;
    assert_eq!(db.migrate().unwrap(), 0);
    // Look-up, column, two writes, and the token, which is not there.
    assert_eq!(db.asked, 5);
    assert_eq!(db.rows[&id].token, "legacy-token");
    assert_eq!(db.rows[&id].headers, json);
    let record = db.get(id).unwrap().unwrap();
    assert_eq!(record.token, "legacy-token");
    assert_eq!(record.headers, vec![header("X", "y")]);
}

#[test]
fn one_row_that_cannot_be_moved_does_not_hold_up_the_rest() {
    let mut db = Memory::default();
    let first = db.seed_row("one", "[]");
    let second = db.seed_row("two", r#"[{"name":"X","value":"y"}]"#);
    // The token of the first row is refused.
    db.failing.insert(2);
    assert_eq!(db.migrate().unwrap(), 1);
    assert_eq!(db.rows[&first].token, "one");
    assert_eq!(db.rows[&second].token, "");
    assert_eq!(db.get(first).unwrap().unwrap().token, "one");
    assert_eq!(db.get(second).unwrap().unwrap().token, "two");
    // The next run moves it.
    assert_eq!(db.migrate().unwrap(), 1);
    assert_eq!(db.rows[&first].token, "");
    assert_eq!(db.get(first).unwrap().unwrap().token, "one");
}

#[test]
fn a_row_with_headers_alone_is_moved_too() {
    let mut db = Memory::default();
    let id = db.seed_row("", r#"[{"name":"X","value":"y"}]"#);
    let unreadable = db.seed_row("", "not json");
    assert_eq!(db.migrate().unwrap(), 2);
    assert_eq!(db.headers[&id], vec![header("X", "y")]);
    assert_eq!(db.tokens[&id], "");
    assert_eq!(db.rows[&id].headers, "[]");
    assert_eq!(db.headers[&unreadable], vec![]);
    assert_eq!(db.rows[&unreadable].headers, "[]");
}

#[test]
fn a_migration_touches_nothing_but_the_columns_for_secrets() {
    let mut db = Memory::default();
    let id = db.seed_row("t", "[]");
    let before = db.rows.clone();
    db.migrate().unwrap();
    for (key, row) in &db.rows {
        let expected = ConnectionRow {
            token: String::new(),
            headers: "[]".to_string(),
            ..before[key].clone()
        };
        assert_eq!(row, &expected);
    }
    assert_eq!(before[&id].token, "t");
}

#[test]
fn a_database_that_fails_ends_a_migration() {
    let mut db = Memory::default();
    let id = db.seed_row("t", "[]");
    db.failing.insert(0);
    assert_eq!(db.migrate().unwrap_err().message, "fault 0");
    // Look-up, column, two writes, two reads; then the clearing fails.
    db.failing.insert(6);
    assert_eq!(db.migrate().unwrap_err().message, "fault 6");
    assert_eq!(db.get(id).unwrap().unwrap().token, "t");
}

#[test]
fn an_empty_order_changes_nothing() {
    let mut db = Memory::default();
    three(&mut db);
    let before = db.rows.clone();
    assert_eq!(db.reorder(vec![]), Ok(()));
    assert_eq!(db.asked, 0);
    assert_eq!(db.rows, before);
}

#[test]
fn an_order_says_what_is_wrong_with_it() {
    let mut db = Memory::default();
    let ids = three(&mut db);
    let err = db.reorder(vec![ids[0], 99, ids[0]]).unwrap_err();
    assert_eq!(
        err.message,
        "Remote workspace order contains duplicate connections"
    );
    assert_eq!(db.asked, 0);
    for order in [
        vec![ids[0], ids[1]],
        vec![ids[0], ids[1], 99],
        vec![ids[0], ids[1], ids[2], 99],
    ] {
        let err = db.reorder(order).unwrap_err();
        assert_eq!(err.code, AppErrorCode::InvalidInput);
        assert_eq!(
            err.message,
            "Remote workspace order must include every connection exactly once"
        );
        assert_eq!(db.asked, 1);
    }
}

#[test]
fn an_order_gives_places_and_one_time_to_all() {
    let mut db = Memory::default();
    let ids = three(&mut db);
    let before = db.rows.clone();
    db.reorder(vec![ids[2], ids[0], ids[1]]).unwrap();
    assert_eq!(db.rows[&ids[2]].sort_order, 0);
    assert_eq!(db.rows[&ids[0]].sort_order, 1);
    assert_eq!(db.rows[&ids[1]].sort_order, 2);
    let now = db.rows[&ids[0]].updated_at;
    for id in ids {
        let row = db.rows[&id].clone();
        assert_eq!(row.updated_at, now);
        assert_ne!(row.updated_at, before[&id].updated_at);
        assert_eq!(
            row,
            ConnectionRow {
                sort_order: row.sort_order,
                updated_at: now,
                ..before[&id].clone()
            }
        );
        assert_eq!(db.get(id).unwrap().unwrap().token, row.name);
    }
}

#[test]
fn an_order_that_fails_anywhere_changes_nothing() {
    // Look-up, begin, three rows, commit.
    for turn in 0..6 {
        let mut db = Memory::default();
        let ids = three(&mut db);
        let before = db.rows.clone();
        db.failing.insert(turn);
        let err = db.reorder(vec![ids[2], ids[0], ids[1]]).unwrap_err();
        assert_eq!(err.code, AppErrorCode::DatabaseError);
        assert_eq!(err.detail, Some(format!("fault {turn}")));
        assert_eq!(db.asked, turn + 1);
        assert_eq!(db.rows, before);
    }
}

#[test]
fn an_answer_that_does_not_fit_changes_nothing() {
    let now = Timestamp {
        seconds: 1,
        nanos: 2,
    };
    assert_eq!(list().advance(Reply::Done, now), list());
    assert_eq!(get(7).advance(Reply::Rows(vec![]), now), get(7));
    assert_eq!(delete(7).advance(Reply::Row(None), now), delete(7));
    assert_eq!(
        migrate_plaintext_secrets().advance(Reply::Done, now),
        migrate_plaintext_secrets()
    );
    assert_eq!(
        reorder(vec![1]).advance(Reply::Token(None), now),
        reorder(vec![1])
    );
    assert_eq!(
        update(7, "n", "u", "t", &[]).advance(Reply::Done, now),
        update(7, "n", "u", "t", &[])
    );
    assert_eq!(
        create("n", "http://x", "t", &[], now).advance(Reply::Done, now),
        create("n", "http://x", "t", &[], now)
    );
}

#[test]
fn secrets_are_stored_token_first() {
    assert_eq!(
        store_secrets(SecretWrite::Token, Ok(())),
        StoreProgress::Next(SecretWrite::Headers)
    );
    assert_eq!(
        store_secrets(SecretWrite::Headers, Ok(())),
        StoreProgress::Stored
    );
    for pending in [SecretWrite::Token, SecretWrite::Headers] {
        assert_eq!(
            store_secrets(pending, Err("why".to_string())),
            StoreProgress::Failed("why".to_string())
        );
    }
}

#[test]
fn secrets_are_readable_only_when_both_are_the_same() {
    let headers = vec![header("X", "1"), header("Y", "2")];
    let token = Some("tok".to_string());
    let stored = Some(headers.clone());
    assert!(secrets_readable(&token, &stored, "tok", &headers));
    assert!(!secrets_readable(&None, &stored, "tok", &headers));
    assert!(!secrets_readable(&token, &None, "tok", &headers));
    assert!(!secrets_readable(&token, &stored, "tok", &headers[..1]));
    let swapped = [header("Y", "2"), header("X", "1")];
    assert!(!secrets_readable(&token, &stored, "tok", &swapped));
    let other = [header("X", "1"), header("Y", "3")];
    assert!(!secrets_readable(&token, &stored, "tok", &other));
    assert!(secrets_readable(&token, &Some(vec![]), "tok", &[]));
    assert!(token_readable(&token, "tok"));
    assert!(!token_readable(&token, "to"));
    assert!(!token_readable(&None, ""));
}

fn row() -> ConnectionRow {
    ConnectionRow {
        id: 3,
        name: "n".to_string(),
        base_url: "http://x".to_string(),
        token: "column".to_string(),
        headers: "[]".to_string(),
        sort_order: 9,
        created_at: Timestamp {
            seconds: 1,
            nanos: 2,
        },
        updated_at: Timestamp {
            seconds: 3,
            nanos: 4,
        },
    }
}

#[test]
fn a_record_has_the_row_and_the_secrets() {
    let record = record_with_secrets(row(), "t".to_string(), vec![header("a", "b")]);
    assert_eq!(record.id, 3);
    assert_eq!(record.name, "n");
    assert_eq!(record.base_url, "http://x");
    assert_eq!(record.token, "t");
    assert_eq!(record.headers, vec![header("a", "b")]);
    assert_eq!(record.sort_order, 9);
    assert_eq!(record.created_at, row().created_at);
    assert_eq!(record.updated_at, row().updated_at);

    let record = to_record(row(), None, None, Some(vec![header("c", "d")]));
    assert_eq!(record.token, "column");
    assert_eq!(record.headers, vec![header("c", "d")]);
    let record = to_record(row(), Some("s".to_string()), None, None);
    assert_eq!(record.token, "s");
    assert_eq!(record.headers, vec![]);
    let stored = Some(vec![header("e", "f")]);
    let record = to_record(row(), None, stored, Some(vec![header("c", "d")]));
    assert_eq!(record.headers, vec![header("e", "f")]);
}

#[test]
fn the_frontend_sees_whether_there_is_a_token() {
    let info = |token: &str| {
        record_with_secrets(row(), token.to_string(), vec![header("a", "b")]).into_info()
    };
    assert!(info("t").has_token);
    assert!(!info("").has_token);
    assert_eq!(info("one"), info("another"));
    assert_eq!(info("t").id, 3);
    assert_eq!(info("t").headers, vec![header("a", "b")]);
    assert_eq!(info("t").updated_at, row().updated_at);
}

#[test]
fn rows_wait_in_their_order() {
    let mut queue = RowQueue::of(
        (1..4)
            .map(|id| ConnectionRow { id, ..row() })
            .collect::<Vec<_>>(),
    );
    let mut ids = vec![];
    loop {
        match queue.pop() {
            Some(row) => ids.push(row.id),
            None => break,
        }
    }
    assert_eq!(ids, vec![1, 2, 3]);
}

#[test]
fn errors_say_what_they_are() {
    let error = AppCommandError::db(DbError {
        message: "locked".to_string(),
    });
    assert_eq!(error.code, AppErrorCode::DatabaseError);
    assert_eq!(error.detail.as_deref(), Some("locked"));
    let error = AppCommandError::invalid_input("m").with_detail("d".to_string());
    assert_eq!(error.code, AppErrorCode::InvalidInput);
    assert_eq!(error.message, "m");
    assert_eq!(error.detail.as_deref(), Some("d"));
    assert_eq!(AppCommandError::not_found("m").code, AppErrorCode::NotFound);
    assert_eq!(AppCommandError::io_error("m").code, AppErrorCode::IoError);
}

#[test]
fn secrets_stay_out_of_the_columns() {
    let mut db = Memory::default();
    let ids = three(&mut db);
    let legacy = db.seed_row("t", r#"[{"name":"X","value":"y"}]"#);
    let headers = [header("X-New", "secret")];
    db.update(ids[0], "a", "http://x", "new-token", &headers)
        .unwrap();
    db.migrate().unwrap();
    let mut order: Vec<i32> = db.rows.keys().copied().collect();
    order.reverse();
    db.reorder(order).unwrap();
    assert!(db
        .rows
        .values()
        .all(|row| row.token.is_empty() && row.headers == "[]"));
    assert_eq!(db.get(ids[0]).unwrap().unwrap().token, "new-token");
    assert_eq!(db.get(legacy).unwrap().unwrap().token, "t");
}

#[test]
fn a_new_connection_is_added_to_the_end_of_the_list() {
    let mut db = Memory::default();
    let ids = three(&mut db);
    // Gaps stay, and equal places are told apart by name.
    db.rows.get_mut(&ids[0]).unwrap().sort_order = 7;
    db.rows.get_mut(&ids[2]).unwrap().sort_order = 1;
    let mut expected = db.list().unwrap();
    assert_eq!(
        expected.iter().map(|r| r.id).collect::<Vec<_>>(),
        vec![ids[1], ids[2], ids[0]]
    );
    let created = db.create("A", "http://x", "t", &[]).unwrap();
    assert_eq!(created.sort_order, 8);
    expected.push(created);
    let listed = db.list().unwrap();
    assert_eq!(listed, expected);
    for record in listed {
        assert_eq!(db.get(record.id).unwrap(), Some(record));
    }
}

#[test]
fn a_migration_counts_the_rows_it_cleared() {
    let mut db = Memory::default();
    let ids: Vec<i32> = ["one", "two", "three"]
        .iter()
        .map(|token| db.seed_row(token, "[]"))
        .collect();
    let before = db.rows.clone();
    // After the look-up: six requests for the first row, then the column, the
    // token and the refused headers of the second.
    db.failing.insert(9);
    assert_eq!(db.migrate().unwrap(), 2);
    for (i, id) in ids.iter().enumerate() {
        let row = db.rows[id].clone();
        if i == 1 {
            assert_eq!(row, before[id]);
        } else {
            assert_eq!(row.token, "");
            assert_eq!(db.tokens[id], before[id].token);
        }
    }
    // A clearing that fails ends the migration; what was cleared stays cleared.
    let mut db = Memory::default();
    let first = db.seed_row("one", "[]");
    let second = db.seed_row("two", "[]");
    db.failing.insert(12);
    assert_eq!(db.migrate().unwrap_err().message, "fault 12");
    assert_eq!(db.rows[&first].token, "");
    assert_eq!(db.rows[&second].token, "two");
    assert_eq!(db.get(first).unwrap().unwrap().token, "one");
    assert_eq!(db.get(second).unwrap().unwrap().token, "two");
}

#[test]
fn the_last_of_two_orders_stands() {
    let mut db = Memory::default();
    let ids = three(&mut db);
    db.reorder(vec![ids[2], ids[1], ids[0]]).unwrap();
    db.reorder(vec![ids[1], ids[2], ids[0]]).unwrap();
    assert_eq!(
        db.list().unwrap().iter().map(|r| r.id).collect::<Vec<_>>(),
        vec![ids[1], ids[2], ids[0]]
    );
}
