use chrono::{DateTime, Timelike, Utc};
use kilo::agent::{KiloAgent, SessionRow, SweepStrategy, TranscriptFormat, WatermarkType};
use kilo::errors::{DbStep, TranscriptError};
use kilo::json::{parse_json, JsonValue};
use kilo::transcript::{
    latest_update, messages_from_rows, parts_from_rows, MessageRow, PartRow, SessionMessage,
    TranscriptBatch, CACHE_SIZE_PRAGMA, MESSAGES_QUERY, PARENT_QUERY, PARTS_QUERY, SESSIONS_QUERY,
};
use kilo::watermark::{Timestamp, Watermark, MAX_MILLIS, MIN_MILLIS};
use rusqlite::Connection;
use std::path::PathBuf;
use std::time::Duration;

const SCHEMA: &str = "CREATE TABLE IF NOT EXISTS session (id TEXT PRIMARY KEY, parent_id TEXT);
    INSERT OR IGNORE INTO session VALUES ('test-session', NULL);
    CREATE TABLE IF NOT EXISTS message (
        id TEXT PRIMARY KEY,
        session_id TEXT NOT NULL,
        time_created INTEGER NOT NULL,
        time_updated INTEGER NOT NULL,
        data TEXT NOT NULL
    );
    CREATE TABLE IF NOT EXISTS part (
        id TEXT PRIMARY KEY,
        message_id TEXT NOT NULL,
        session_id TEXT NOT NULL,
        time_created INTEGER NOT NULL,
        time_updated INTEGER NOT NULL,
        data TEXT NOT NULL
    );";

fn add_message(conn: &Connection, i: usize, ts: i64) {
    conn.execute(
        "INSERT INTO message (id, session_id, time_created, time_updated, data) VALUES (?1, ?2, ?3, ?4, ?5)",
        (
            format!("msg-{}", i),
            "test-session",
            ts,
            ts,
            format!(r#"{{"role":"user","id":{}}}"#, i),
        ),
    )
    .unwrap();
    conn.execute(
        "INSERT INTO part (id, message_id, session_id, time_created, time_updated, data) VALUES (?1, ?2, ?3, ?4, ?5, ?6)",
        (
            format!("prt-{}", i),
            format!("msg-{}", i),
            "test-session",
            ts + 1,
            ts + 1,
            format!(r#"{{"type":"text","text":"part-{}"}}"#, i),
        ),
    )
    .unwrap();
}

fn create_test_db(message_count: usize) -> Connection {
    let conn = Connection::open_in_memory().unwrap();
    conn.execute_batch(CACHE_SIZE_PRAGMA).unwrap();
    conn.execute_batch(SCHEMA).unwrap();
    for i in 0..message_count {
        add_message(&conn, i, 1000 + (i as i64) * 1000);
    }
    conn
}

fn message_rows(conn: &Connection, after: i64, limit: usize) -> Vec<Result<MessageRow, String>> {
    let mut stmt = conn.prepare(MESSAGES_QUERY).unwrap();
    let rows = stmt
        .query_map(("test-session", after, limit), |row| {
            Ok(MessageRow {
                id: row.get(0)?,
                session_id: row.get(1)?,
                time_created: row.get(2)?,
                time_updated: row.get(3)?,
                data: row.get(4)?,
            })
        })
        .unwrap();
    rows.map(|row| row.map_err(|e| e.to_string())).collect()
}

fn part_rows(conn: &Connection, after: i64, limit: usize) -> Vec<Result<PartRow, String>> {
    let mut stmt = conn.prepare(PARTS_QUERY).unwrap();
    let rows = stmt
        .query_map(("test-session", after, limit), |row| {
            Ok(PartRow {
                id: row.get(0)?,
                message_id: row.get(1)?,
                session_id: row.get(2)?,
                time_created: row.get(3)?,
                time_updated: row.get(4)?,
                data: row.get(5)?,
            })
        })
        .unwrap();
    rows.map(|row| row.map_err(|e| e.to_string())).collect()
}

fn read(agent: &KiloAgent, conn: &Connection, mark: Watermark) -> TranscriptBatch {
    let request = agent.begin_read(mark, "test-session").unwrap();
    let messages = message_rows(conn, request.after_updated, request.limit);
    let parts = part_rows(conn, request.after_updated, request.limit);
    agent
        .read_incremental(mark, "test-session", Ok(messages), Ok(parts))
        .unwrap()
}

fn drain_all(agent: &KiloAgent, conn: &Connection) -> (Vec<JsonValue>, Watermark) {
    let mut all = Vec::new();
    let mut mark = Watermark::Timestamp(Timestamp::epoch());
    loop {
        let batch = read(agent, conn, mark);
        mark = Watermark::Timestamp(batch.new_watermark);
        if batch.events.is_empty() {
            return (all, mark);
        }
        all.extend(batch.events);
    }
}

fn under<'a>(value: &'a JsonValue, keys: &[&str]) -> &'a JsonValue {
    keys.iter().fold(value, |v, key| v.get(key).unwrap())
}

fn number(value: &JsonValue) -> u64 {
    match value {
        JsonValue::Number(n) => n.as_u64().unwrap(),
        _ => panic!("no number: {:?}", value),
    }
}

fn ids(events: &[JsonValue]) -> Vec<u64> {
    events
        .iter()
        .map(|e| number(under(e, &["message", "data", "id"])))
        .collect()
}

fn text(value: &JsonValue) -> &str {
    value.as_text().unwrap()
}

fn message_row(id: &str, time_updated: i64, data: &str) -> MessageRow {
    MessageRow {
        id: id.to_string(),
        session_id: "s".to_string(),
        time_created: 5,
        time_updated,
        data: data.to_string(),
    }
}

fn part_row(id: &str, message_id: &str, data: &str) -> PartRow {
    PartRow {
        id: id.to_string(),
        message_id: message_id.to_string(),
        session_id: "s".to_string(),
        time_created: 6,
        time_updated: 7,
        data: data.to_string(),
    }
}

fn fatal(message: &str) -> TranscriptError {
    TranscriptError::Fatal { message: message.to_string() }
}

#[test]
fn test_sweep_strategy() {
    let agent = KiloAgent::new();
    assert_eq!(
        agent.sweep_strategy(),
        SweepStrategy::Periodic(Duration::from_secs(30 * 60))
    );
}

#[test]
fn batch_sizes() {
    assert_eq!(KiloAgent::new().batch_size_hint(), 1000);
    assert_eq!(KiloAgent::default().batch_size_hint(), 1000);
    assert_eq!(KiloAgent::with_batch_size(7).batch_size_hint(), 7);
}

fn session_rows(conn: &Connection) -> Vec<Result<SessionRow, String>> {
    let mut stmt = conn.prepare(SESSIONS_QUERY).unwrap();
    let ids: Vec<String> = stmt
        .query_map([], |row| row.get(0))
        .unwrap()
        .map(|id| id.unwrap())
        .collect();
    ids.into_iter()
        .map(|id| {
            let parent_id = conn
                .query_row(PARENT_QUERY, [&id], |row| row.get::<_, Option<String>>(0))
                .ok()
                .flatten();
            let generated_id = format!("s_{}", id);
            Ok(SessionRow { id, parent_id, generated_id })
        })
        .collect()
}

#[test]
fn test_discover_sessions_empty_db() {
    let conn = Connection::open_in_memory().unwrap();
    conn.execute_batch("CREATE TABLE session (id TEXT PRIMARY KEY, parent_id TEXT);")
        .unwrap();
    let db_path = PathBuf::from("kilo.db");
    let sessions =
        KiloAgent::discover_sessions_from_rows(&db_path, &session_rows(&conn)).unwrap();
    assert!(sessions.is_empty());
}

#[test]
fn test_discover_sessions_with_data() {
    let conn = Connection::open_in_memory().unwrap();
    conn.execute_batch(
        "CREATE TABLE session (id TEXT PRIMARY KEY, parent_id TEXT);
         INSERT INTO session VALUES ('sess-1', NULL);
         INSERT INTO session VALUES ('sess-2', 'sess-1');
         CREATE TABLE message (id TEXT PRIMARY KEY, session_id TEXT, time_created INTEGER, time_updated INTEGER, data TEXT);",
    )
    .unwrap();
    let db_path = PathBuf::from("/data/kilo.db");
    let sessions =
        KiloAgent::discover_sessions_from_rows(&db_path, &session_rows(&conn)).unwrap();
    assert_eq!(sessions.len(), 2);

    let sess1 = sessions
        .iter()
        .find(|s| s.external_session_id == "sess-1")
        .unwrap();
    assert_eq!(sess1.tool, "kilo");
    assert_eq!(sess1.external_parent_session_id, None);
    assert_eq!(sess1.session_id, "s_sess-1");
    assert_eq!(sess1.transcript_path, db_path);
    assert_eq!(sess1.transcript_format, TranscriptFormat::KiloCodeSqlite);
    assert_eq!(sess1.watermark_type, WatermarkType::Timestamp);
    assert_eq!(sess1.initial_watermark, Watermark::Timestamp(Timestamp::epoch()));

    let sess2 = sessions
        .iter()
        .find(|s| s.external_session_id == "sess-2")
        .unwrap();
    assert_eq!(sess2.external_parent_session_id, Some("sess-1".to_string()));
}

#[test]
fn an_unreadable_session_row_is_the_error() {
    let row = |id: &str| SessionRow {
        id: id.to_string(),
        parent_id: None,
        generated_id: id.to_string(),
    };
    let rows = vec![Ok(row("a")), Err("first".to_string()), Err("second".to_string())];
    assert_eq!(
        KiloAgent::discover_sessions_from_rows(&PathBuf::from("kilo.db"), &rows),
        Err(fatal("Failed to read session row: first"))
    );
}

#[test]
fn test_batch_resume_no_loss_or_repeat() {
    let conn = create_test_db(5);
    let agent = KiloAgent::with_batch_size(2);
    let (events, _) = drain_all(&agent, &conn);

    assert_eq!(events.len(), 5);
    assert_eq!(ids(&events), vec![0, 1, 2, 3, 4]);
}

#[test]
fn test_append_one_record_after_full_read() {
    let conn = create_test_db(3);
    let agent = KiloAgent::with_batch_size(2);
    let (_, wm) = drain_all(&agent, &conn);

    add_message(&conn, 3, 1000 + 3 * 1000i64);

    let batch = read(&agent, &conn, wm);
    assert_eq!(batch.events.len(), 1);
    assert_eq!(number(under(&batch.events[0], &["message", "data", "id"])), 3);
}

#[test]
fn test_limit_caps_memory_and_watermark_still_drains_all() {
    let conn = create_test_db(20);
    let agent = KiloAgent::with_batch_size(3);

    let first = read(&agent, &conn, Watermark::Timestamp(Timestamp::epoch()));
    assert_eq!(first.events.len(), 3);

    let (events, _) = drain_all(&agent, &conn);
    assert_eq!(events.len(), 20);
    let expected: Vec<u64> = (0..20).collect();
    assert_eq!(ids(&events), expected);
}

#[test]
fn events_hold_the_message_and_its_parts() {
    let conn = create_test_db(2);
    let batch = read(&KiloAgent::new(), &conn, Watermark::Timestamp(Timestamp::epoch()));
    let event = &batch.events[1];
    assert_eq!(text(under(event, &["message", "id"])), "msg-1");
    assert_eq!(text(under(event, &["message", "session_id"])), "test-session");
    assert_eq!(number(under(event, &["message", "time_created"])), 2000);
    assert_eq!(number(under(event, &["message", "time_updated"])), 2000);
    assert_eq!(text(under(event, &["message", "data", "role"])), "user");
    match under(event, &["parts"]) {
        JsonValue::Array(parts) => {
            assert_eq!(parts.len(), 1);
            assert_eq!(text(under(&parts[0], &["id"])), "prt-1");
            assert_eq!(text(under(&parts[0], &["message_id"])), "msg-1");
            assert_eq!(text(under(&parts[0], &["session_id"])), "test-session");
            assert_eq!(number(under(&parts[0], &["time_created"])), 2001);
            assert_eq!(number(under(&parts[0], &["time_updated"])), 2001);
            assert_eq!(text(under(&parts[0], &["data", "text"])), "part-1");
        }
        other => panic!("no parts: {:?}", other),
    }
    assert_eq!(batch.new_watermark.timestamp_millis(), 2000);
    let (id, parent, call) = KiloAgent::new().extract_event_ids(event);
    assert_eq!((id, parent, call), (Some("msg-1".to_string()), None, None));
}

#[test]
fn a_batch_without_messages_keeps_the_mark() {
    let mark = Timestamp::new(12, 345_678_901).unwrap();
    let batch = KiloAgent::new()
        .read_incremental(
            Watermark::Timestamp(mark),
            "s",
            Ok(Vec::new()),
            Err(fatal("never looked at")),
        )
        .unwrap();
    assert!(batch.events.is_empty());
    assert_eq!(batch.new_watermark, mark);
}

#[test]
fn the_mark_stays_where_the_calendar_ends() {
    let mark = Timestamp::new(1, 0).unwrap();
    let rows = vec![Ok(message_row("a", MAX_MILLIS + 1, "{}"))];
    let batch = KiloAgent::new()
        .read_incremental(Watermark::Timestamp(mark), "s", Ok(rows), Ok(Vec::new()))
        .unwrap();
    assert_eq!(batch.events.len(), 1);
    assert_eq!(batch.new_watermark, mark);
}

#[test]
fn a_mark_of_another_kind_is_refused() {
    let message = "Kilo reader requires TimestampWatermark, got incompatible type for session s-9";
    let agent = KiloAgent::new();
    assert_eq!(agent.begin_read(Watermark::Other, "s-9"), Err(fatal(message)));
    assert_eq!(
        agent.read_incremental(Watermark::Other, "s-9", Ok(Vec::new()), Ok(Vec::new())),
        Err(fatal(message))
    );
}

#[test]
fn a_read_asks_for_what_changed_after_its_mark() {
    let mark = Timestamp::new(2, 999_999_999).unwrap();
    let request = KiloAgent::with_batch_size(4)
        .begin_read(Watermark::Timestamp(mark), "s")
        .unwrap();
    assert_eq!(request.after_updated, 2999);
    assert_eq!(request.limit, 4);
}

#[test]
fn failed_queries_and_rows_are_errors() {
    let agent = KiloAgent::new();
    let mark = Watermark::Timestamp(Timestamp::epoch());
    let row = || Ok(message_row("a", 1, "{}"));
    assert_eq!(
        agent.read_incremental(mark, "s", Err(fatal("no messages")), Ok(Vec::new())),
        Err(fatal("no messages"))
    );
    assert_eq!(
        agent.read_incremental(mark, "s", Ok(vec![row()]), Err(fatal("no parts"))),
        Err(fatal("no parts"))
    );
    assert_eq!(
        agent.read_incremental(mark, "s", Ok(vec![row(), Err("torn".to_string())]), Ok(Vec::new())),
        Err(fatal("Failed to read message row: torn"))
    );
    assert_eq!(
        agent.read_incremental(mark, "s", Ok(vec![row()]), Ok(vec![Err("torn".to_string())])),
        Err(fatal("Failed to read part row: torn"))
    );
}

#[test]
fn message_data_must_parse() {
    let rows = vec![
        Ok(message_row("m-1", 1, "{}")),
        Ok(message_row("m-2", 2, "{broken")),
        Err("later".to_string()),
    ];
    assert_eq!(
        messages_from_rows(&rows),
        Err(TranscriptError::Parse {
            line: 0,
            message: "Failed to parse message data for id m-2: key must be a string at line 1 column 2"
                .to_string(),
        })
    );
    assert_eq!(
        SessionMessage::from_row(&message_row("m", 1, ""), Err("why".to_string())),
        Err(TranscriptError::Parse {
            line: 0,
            message: "Failed to parse message data for id m: why".to_string(),
        })
    );
}

#[test]
fn part_data_that_does_not_parse_is_left_out() {
    let rows = vec![
        Ok(part_row("p-1", "m", r#"{"n":1}"#)),
        Ok(part_row("p-2", "m", "not json")),
        Ok(part_row("p-3", "m", "3")),
    ];
    let parts = parts_from_rows(&rows).unwrap();
    let bodies: Vec<&str> = parts.iter().map(|p| text(under(&p.body, &["id"]))).collect();
    assert_eq!(bodies, vec!["p-1", "p-3"]);
    assert!(parts.iter().all(|p| p.message_id == "m"));
}

#[test]
fn parts_go_to_the_first_message_of_their_id() {
    let messages =
        messages_from_rows(&vec![Ok(message_row("m", 3, "{}")), Ok(message_row("m", 2, "{}"))])
            .unwrap();
    assert_eq!(latest_update(1, &messages), 3);
    assert_eq!(latest_update(9, &messages), 9);
    let parts = parts_from_rows(&vec![
        Ok(part_row("p-1", "m", "{}")),
        Ok(part_row("p-2", "other", "{}")),
    ])
    .unwrap();
    let batch = TranscriptBatch::assemble(Timestamp::epoch(), messages, parts);
    assert_eq!(batch.events.len(), 2);
    assert!(batch.events[0].get("parts").is_some());
    assert!(batch.events[1].get("parts").is_none());
    assert_eq!(batch.new_watermark.timestamp_millis(), 3);
}

#[test]
fn test_extract_event_ids_with_tool_call() {
    let agent = KiloAgent::new();
    let event = parse_json(
        r#"{
            "message": {
                "id": "msg_123",
                "session_id": "ses_456",
                "time_created": 1000,
                "time_updated": 2000,
                "data": {
                    "role": "assistant",
                    "parentID": "msg_parent",
                    "modelID": "some-model"
                }
            },
            "parts": [
                {
                    "id": "prt_789",
                    "message_id": "msg_123",
                    "session_id": "ses_456",
                    "time_created": 1000,
                    "time_updated": 2000,
                    "data": {
                        "type": "tool",
                        "callID": "call_tool_1",
                        "tool": "read"
                    }
                }
            ]
        }"#,
    )
    .unwrap();
    let (eid, pid, tid) = agent.extract_event_ids(&event);
    assert_eq!(eid, Some("msg_123".to_string()));
    assert_eq!(pid, Some("msg_parent".to_string()));
    assert_eq!(tid, Some("call_tool_1".to_string()));
}

#[test]
fn test_extract_event_ids_no_parts() {
    let agent = KiloAgent::new();
    let event = parse_json(
        r#"{
            "message": {
                "id": "msg_123",
                "session_id": "ses_456",
                "time_created": 1000,
                "time_updated": 1000,
                "data": {"role": "user"}
            }
        }"#,
    )
    .unwrap();
    let (eid, pid, tid) = agent.extract_event_ids(&event);
    assert_eq!(eid, Some("msg_123".to_string()));
    assert_eq!(pid, None);
    assert_eq!(tid, None);
}

#[test]
fn the_first_call_id_counts() {
    let agent = KiloAgent::new();
    let event = parse_json(
        r#"{"message": 1, "parts": [{"data": {"callID": 7}}, {}, {"data": {"callID": "b"}},
            {"data": {"callID": "c"}}]}"#,
    )
    .unwrap();
    assert_eq!(agent.extract_event_ids(&event), (None, None, Some("b".to_string())));
    let odd = parse_json(r#"{"parts": {"data": {"callID": "b"}}}"#).unwrap();
    assert_eq!(agent.extract_event_ids(&odd), (None, None, None));
    assert_eq!(agent.extract_event_ids(&JsonValue::Null), (None, None, None));
}

#[test]
fn an_event_has_its_own_time_first() {
    let agent = KiloAgent::new();
    assert_eq!(agent.extract_event_timestamp(Some(5), 9), 5);
    assert_eq!(agent.extract_event_timestamp(None, 9), 9);
}

#[test]
fn timestamps_are_those_of_the_calendar() {
    let ends = [DateTime::<Utc>::MIN_UTC, DateTime::<Utc>::MAX_UTC];
    assert_eq!(MIN_MILLIS, ends[0].timestamp_millis());
    assert_eq!(MAX_MILLIS, ends[1].timestamp_millis());
    for end in ends {
        let at = Timestamp::new(end.timestamp(), end.timestamp_subsec_nanos()).unwrap();
        assert_eq!(at.timestamp_millis(), end.timestamp_millis());
    }
    assert_eq!(Timestamp::new(ends[0].timestamp() - 1, 0), None);
    assert_eq!(Timestamp::new(ends[1].timestamp() + 1, 0), None);
    for millis in [MIN_MILLIS, -1001, -1, 0, 1, 999, 1000, 1_700_000_000_123, MAX_MILLIS] {
        let at = Timestamp::from_timestamp_millis(millis).unwrap();
        let same = DateTime::<Utc>::from_timestamp_millis(millis).unwrap();
        assert_eq!(at.secs(), same.timestamp());
        assert_eq!(at.nanos(), same.timestamp_subsec_nanos());
        assert_eq!(at.timestamp_millis(), millis);
    }
    for millis in [i64::MIN, MIN_MILLIS - 1, MAX_MILLIS + 1, i64::MAX] {
        assert_eq!(Timestamp::from_timestamp_millis(millis), None);
        assert!(DateTime::<Utc>::from_timestamp_millis(millis).is_none());
    }
    let early = Timestamp::from_timestamp_millis(-1).unwrap();
    assert_eq!((early.secs(), early.nanos()), (-1, 999_000_000));
}

#[test]
fn seconds_may_last_longer() {
    let last = DateTime::<Utc>::MAX_UTC.timestamp();
    let instants =
        [(59, 1_500_000_000), (-1, 1_999_999_999), (58, 1_000_000_000), (last, 1_000_000_000)];
    for (secs, nanos) in instants {
        let second = DateTime::<Utc>::from_timestamp(secs, 0).unwrap().naive_utc();
        let theirs = second.with_nanosecond(nanos).unwrap().and_utc();
        let ours = Timestamp::new(theirs.timestamp(), theirs.timestamp_subsec_nanos()).unwrap();
        assert_eq!((ours.secs(), ours.nanos()), (secs, nanos));
        assert_eq!(ours.timestamp_millis(), theirs.timestamp_millis());
        let mark = Watermark::Timestamp(ours);
        let batch =
            KiloAgent::new().read_incremental(mark, "s", Ok(Vec::new()), Ok(Vec::new())).unwrap();
        assert_eq!(batch.new_watermark, ours);
    }
    assert_eq!(Timestamp::new(0, 2_000_000_000), None);
}

#[test]
fn database_errors_name_their_step() {
    let cases = [
        (DbStep::SetCacheSize, "Failed to set PRAGMA cache_size: x"),
        (DbStep::PrepareMessages, "Failed to prepare message query: x"),
        (DbStep::QueryMessages, "Failed to query messages: x"),
        (DbStep::ReadMessage, "Failed to read message row: x"),
        (DbStep::PrepareParts, "Failed to prepare part query: x"),
        (DbStep::QueryParts, "Failed to query parts: x"),
        (DbStep::ReadPart, "Failed to read part row: x"),
        (DbStep::PrepareSessions, "Failed to prepare session query: x"),
        (DbStep::QuerySessions, "Failed to query sessions: x"),
        (DbStep::ReadSession, "Failed to read session row: x"),
    ];
    for (step, message) in cases {
        assert_eq!(TranscriptError::of_step(step, "x"), fatal(message));
    }
    assert_eq!(
        TranscriptError::not_opened("/d/kilo.db", "locked"),
        fatal("Failed to open Kilo database /d/kilo.db: locked")
    );
}
