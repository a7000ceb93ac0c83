//! The events of a session, put together from the rows of its database.
use crate::errors::{concat4, step_fault, DbStep, TranscriptError, TranscriptFault};
use crate::json::{
    distinct_keys, integer, item_views, json_integer, json_of_text, member_views, parse_json, Json,
    JsonValue,
};
use crate::watermark::{Timestamp, MAX_MILLIS, MIN_MILLIS};
use vstd::prelude::*;

verus! {

/// Selects a session's messages that changed after a time, oldest change first.
pub const MESSAGES_QUERY: &'static str =
    "SELECT id, session_id, time_created, time_updated, data FROM message \
     WHERE session_id = ? AND time_updated > ? \
     ORDER BY time_updated ASC, id ASC \
     LIMIT ?";

/// Selects the parts of the messages that [`MESSAGES_QUERY`] selects.
pub const PARTS_QUERY: &'static str =
    "SELECT id, message_id, session_id, time_created, time_updated, data FROM part \
     WHERE message_id IN ( \
         SELECT id FROM message WHERE session_id = ? AND time_updated > ? ORDER BY time_updated ASC, id ASC LIMIT ? \
     ) \
     ORDER BY message_id ASC, time_updated ASC, id ASC";

/// Selects the ids of the sessions.
pub const SESSIONS_QUERY: &'static str = "SELECT id FROM session";

/// Selects the parent of a session.
pub const PARENT_QUERY: &'static str = "SELECT parent_id FROM session WHERE id = ?";

/// Bounds the memory that the database uses for its cache.
pub const CACHE_SIZE_PRAGMA: &'static str = "PRAGMA cache_size = -2000;";

/// A row of the `message` table.
#[derive(Debug, PartialEq)]
pub struct MessageRow {
    pub id: String,
    pub session_id: String,
    pub time_created: i64,
    pub time_updated: i64,
    pub data: String,
}

/// A row of the `part` table.
#[derive(Debug, PartialEq)]
pub struct PartRow {
    pub id: String,
    pub message_id: String,
    pub session_id: String,
    pub time_created: i64,
    pub time_updated: i64,
    pub data: String,
}

/// A message whose data has been parsed.
#[derive(Debug, PartialEq)]
pub struct SessionMessage {
    pub id: String,
    pub time_updated: i64,
    pub body: JsonValue,
}

/// The content of a [`SessionMessage`].
pub struct Message {
    pub id: Seq<char>,
    pub time_updated: i64,
    pub body: Json,
}

impl View for SessionMessage {
    type V = Message;

    open spec fn view(&self) -> Message {
        Message { id: self.id@, time_updated: self.time_updated, body: self.body@ }
    }
}

/// A part whose data has been parsed.
#[derive(Debug, PartialEq)]
pub struct MessagePart {
    pub message_id: String,
    pub body: JsonValue,
}

/// The content of a [`MessagePart`].
pub struct Part {
    pub message_id: Seq<char>,
    pub body: Json,
}

impl View for MessagePart {
    type V = Part;

    open spec fn view(&self) -> Part {
        Part { message_id: self.message_id@, body: self.body@ }
    }
}

/// The document of a message with parsed data.
pub open spec fn message_body(row: MessageRow, data: Json) -> Json {
    Json::Object(
        seq![
            ("id"@, Json::Text(row.id@)),
            ("session_id"@, Json::Text(row.session_id@)),
            ("time_created"@, Json::Number(json_integer(row.time_created))),
            ("time_updated"@, Json::Number(json_integer(row.time_updated))),
            ("data"@, data),
        ],
    )
}

/// The document of a part with parsed data.
pub open spec fn part_body(row: PartRow, data: Json) -> Json {
    Json::Object(
        seq![
            ("id"@, Json::Text(row.id@)),
            ("message_id"@, Json::Text(row.message_id@)),
            ("session_id"@, Json::Text(row.session_id@)),
            ("time_created"@, Json::Number(json_integer(row.time_created))),
            ("time_updated"@, Json::Number(json_integer(row.time_updated))),
            ("data"@, data),
        ],
    )
}

/// The message of a row, given what its data parses to.
pub open spec fn message_of(row: MessageRow, data: Result<Json, Seq<char>>) -> Result<
    Message,
    TranscriptFault,
> {
    match data {
        Ok(json) => Ok(
            Message { id: row.id@, time_updated: row.time_updated, body: message_body(row, json) },
        ),
        Err(cause) => Err(
            TranscriptFault::Parse {
                line: 0,
                message: "Failed to parse message data for id "@ + row.id@ + ": "@ + cause,
            },
        ),
    }
}

/// The messages of the rows, or the fault of the first row that has none.
pub open spec fn messages_of(rows: Seq<Result<MessageRow, String>>) -> Result<
    Seq<Message>,
    TranscriptFault,
>
    decreases rows.len(),
{
    if rows.len() == 0 {
        Ok(seq![])
    } else {
        match messages_of(rows.drop_last()) {
            Ok(before) => match rows.last() {
                Ok(row) => match message_of(row, json_of_text(row.data@)) {
                    Ok(message) => Ok(before.push(message)),
                    Err(fault) => Err(fault),
                },
                Err(cause) => Err(step_fault(DbStep::ReadMessage, cause@)),
            },
            Err(fault) => Err(fault),
        }
    }
}

/// The parts of the rows, or the fault of the first row that cannot be read. A part whose data
/// does not parse is left out.
pub open spec fn parts_of(rows: Seq<Result<PartRow, String>>) -> Result<Seq<Part>, TranscriptFault>
    decreases rows.len(),
{
    if rows.len() == 0 {
        Ok(seq![])
    } else {
        match parts_of(rows.drop_last()) {
            Ok(before) => match rows.last() {
                Ok(row) => match json_of_text(row.data@) {
                    Ok(json) => Ok(
                        before.push(
                            Part { message_id: row.message_id@, body: part_body(row, json) },
                        ),
                    ),
                    Err(_) => Ok(before),
                },
                Err(cause) => Err(step_fault(DbStep::ReadPart, cause@)),
            },
            Err(fault) => Err(fault),
        }
    }
}

/// The keys of the documents are told apart by their lengths, or by a letter.
pub(crate) proof fn lemma_keys_differ()
    ensures
        "id"@.len() == 2,
        "data"@.len() == 4,
        "parts"@.len() == 5,
        "message"@.len() == 7,
        "message_id"@.len() == 10,
        "session_id"@.len() == 10,
        "time_created"@.len() == 12,
        "time_updated"@.len() == 12,
        "message_id"@ != "session_id"@,
        "time_created"@ != "time_updated"@,
{
    reveal_strlit("id");
    reveal_strlit("data");
    reveal_strlit("parts");
    reveal_strlit("message");
    reveal_strlit("message_id");
    reveal_strlit("session_id");
    reveal_strlit("time_created");
    reveal_strlit("time_updated");
    assert("message_id"@[0] != "session_id"@[0]);
    assert("time_created"@[5] != "time_updated"@[5]);
}

/// The keys of a message's document are distinct, and where its data is well formed, so is it.
pub proof fn law_message_body_is_well_formed(row: MessageRow, data: Json)
    ensures
        distinct_keys(message_body(row, data)->Object_0),
        data.well_formed() ==> message_body(row, data).well_formed(),
{
    lemma_keys_differ();
    reveal_with_fuel(Json::well_formed, 2);
    let m = message_body(row, data)->Object_0;
    assert(m[0].0 == "id"@ && m[1].0 == "session_id"@ && m[2].0 == "time_created"@ && m[3].0
        == "time_updated"@ && m[4].0 == "data"@);
    assert(m[4].1 == data);
}

/// The keys of a part's document are distinct, and where its data is well formed, so is it.
pub proof fn law_part_body_is_well_formed(row: PartRow, data: Json)
    ensures
        distinct_keys(part_body(row, data)->Object_0),
        data.well_formed() ==> part_body(row, data).well_formed(),
{
    lemma_keys_differ();
    reveal_with_fuel(Json::well_formed, 2);
    let m = part_body(row, data)->Object_0;
    assert(m[0].0 == "id"@ && m[1].0 == "message_id"@ && m[2].0 == "session_id"@ && m[3].0
        == "time_created"@ && m[4].0 == "time_updated"@ && m[5].0 == "data"@);
    assert(m[5].1 == data);
}

/// The keys of an event are distinct, and where its message and parts are well formed, so is
/// it.
pub proof fn law_event_body_is_well_formed(message: Json, parts: Seq<Json>)
    ensures
        distinct_keys(event_body(message, parts)->Object_0),
        message.well_formed() && (forall|i: int|
            0 <= i < parts.len() ==> (#[trigger] parts[i]).well_formed()) ==> event_body(
            message,
            parts,
        ).well_formed(),
{
    lemma_keys_differ();
    let m = event_body(message, parts)->Object_0;
    assert(m[0] == ("message"@, message));
    if parts.len() > 0 {
        assert(m[1] == ("parts"@, Json::Array(parts)));
    }
    if message.well_formed() && (forall|i: int|
        0 <= i < parts.len() ==> (#[trigger] parts[i]).well_formed()) {
        assert(Json::Array(parts).well_formed());
    }
}

/// The contents of a list of messages.
pub open spec fn message_views(list: Seq<SessionMessage>) -> Seq<Message> {
    list.map_values(|m: SessionMessage| m@)
}

/// The contents of a list of parts.
pub open spec fn part_views(list: Seq<MessagePart>) -> Seq<Part> {
    list.map_values(|p: MessagePart| p@)
}

/// The documents of the messages are well formed.
pub open spec fn messages_well_formed(list: Seq<SessionMessage>) -> bool {
    forall|i: int| 0 <= i < list.len() ==> (#[trigger] list[i]).body@.well_formed()
}

/// The documents of the parts are well formed.
pub open spec fn parts_well_formed(list: Seq<MessagePart>) -> bool {
    forall|i: int| 0 <= i < list.len() ==> (#[trigger] list[i]).body@.well_formed()
}

/// The documents are well formed.
pub open spec fn all_well_formed(list: Seq<JsonValue>) -> bool {
    forall|i: int| 0 <= i < list.len() ==> (#[trigger] list[i])@.well_formed()
}

/// The outcome of a parse, by its content.
pub open spec fn parse_view(data: Result<JsonValue, String>) -> Result<Json, Seq<char>> {
    match data {
        Ok(json) => Ok(json@),
        Err(cause) => Err(cause@),
    }
}

impl SessionMessage {
    /// The message of a row, given what its data parses to.
    pub fn from_row(row: &MessageRow, data: Result<JsonValue, String>) -> (message: Result<
        SessionMessage,
        TranscriptError,
    >)
        ensures
            match message {
                Ok(m) => {
                    &&& message_of(*row, parse_view(data)) == Ok::<Message, TranscriptFault>(m@)
                    &&& data is Ok && data->Ok_0@.well_formed() ==> m@.body.well_formed()
                },
                Err(e) => message_of(*row, parse_view(data)) == Err::<Message, TranscriptFault>(e@),
            },
    {
        match data {
            Ok(json) => {
                let mut members: Vec<(String, JsonValue)> = Vec::new();
                members.push(("id".to_owned(), JsonValue::Text(row.id.clone())));
                members.push(("session_id".to_owned(), JsonValue::Text(row.session_id.clone())));
                members.push(
                    ("time_created".to_owned(), JsonValue::Number(integer(row.time_created))),
                );
                members.push(
                    ("time_updated".to_owned(), JsonValue::Number(integer(row.time_updated))),
                );
                members.push(("data".to_owned(), json));
                proof {
                    JsonValue::lemma_object_view(members);
                    assert(member_views(members@) == message_body(*row, json@)->Object_0);
                    law_message_body_is_well_formed(*row, json@);
                }
                Ok(
                    SessionMessage {
                        id: row.id.clone(),
                        time_updated: row.time_updated,
                        body: JsonValue::Object(members),
                    },
                )
            },
            Err(cause) => Err(
                TranscriptError::Parse {
                    line: 0,
                    message: concat4(
                        "Failed to parse message data for id ",
                        row.id.as_str(),
                        ": ",
                        cause.as_str(),
                    ),
                },
            ),
        }
    }
}

impl MessagePart {
    /// The part of a row with parsed data.
    pub fn from_row(row: &PartRow, json: JsonValue) -> (part: MessagePart)
        ensures
            part@ == (Part { message_id: row.message_id@, body: part_body(*row, json@) }),
            json@.well_formed() ==> part@.body.well_formed(),
    {
        let mut members: Vec<(String, JsonValue)> = Vec::new();
        members.push(("id".to_owned(), JsonValue::Text(row.id.clone())));
        members.push(("message_id".to_owned(), JsonValue::Text(row.message_id.clone())));
        members.push(("session_id".to_owned(), JsonValue::Text(row.session_id.clone())));
        members.push(("time_created".to_owned(), JsonValue::Number(integer(row.time_created))));
        members.push(("time_updated".to_owned(), JsonValue::Number(integer(row.time_updated))));
        members.push(("data".to_owned(), json));
        proof {
            JsonValue::lemma_object_view(members);
            assert(member_views(members@) == part_body(*row, json@)->Object_0);
            law_part_body_is_well_formed(*row, json@);
        }
        MessagePart { message_id: row.message_id.clone(), body: JsonValue::Object(members) }
    }
}

/// A fault in the first rows is the fault of all.
pub(crate) proof fn lemma_first_fault_stays(rows: Seq<Result<MessageRow, String>>, n: int)
    requires
        0 <= n <= rows.len(),
        messages_of(rows.take(n)) is Err,
    ensures
        messages_of(rows) == messages_of(rows.take(n)),
    decreases rows.len() - n,
{
    if n == rows.len() {
        assert(rows.take(n) == rows);
    } else {
        assert(rows.take(n + 1).drop_last() == rows.take(n));
        lemma_first_fault_stays(rows, n + 1);
    }
}

pub(crate) proof fn lemma_first_part_fault_stays(rows: Seq<Result<PartRow, String>>, n: int)
    requires
        0 <= n <= rows.len(),
        parts_of(rows.take(n)) is Err,
    ensures
        parts_of(rows) == parts_of(rows.take(n)),
    decreases rows.len() - n,
{
    if n == rows.len() {
        assert(rows.take(n) == rows);
    } else {
        assert(rows.take(n + 1).drop_last() == rows.take(n));
        lemma_first_part_fault_stays(rows, n + 1);
    }
}

/// The messages of the rows that [`MESSAGES_QUERY`] gave; a row that could not be read stands
/// as its cause.
pub fn messages_from_rows(rows: &Vec<Result<MessageRow, String>>) -> (messages: Result<
    Vec<SessionMessage>,
    TranscriptError,
>)
    ensures
        match messages {
            Ok(list) => {
                &&& messages_of(rows@) == Ok::<Seq<Message>, TranscriptFault>(message_views(list@))
                &&& messages_well_formed(list@)
            },
            Err(e) => messages_of(rows@) == Err::<Seq<Message>, TranscriptFault>(e@),
        },
{
    let mut list: Vec<SessionMessage> = Vec::new();
    let mut i: usize = 0;
    assert(rows@.take(0) == Seq::<Result<MessageRow, String>>::empty());
    assert(message_views(list@) == Seq::<Message>::empty());
    while i < rows.len()
        invariant
            i <= rows@.len(),
            messages_of(rows@.take(i as int)) == Ok::<Seq<Message>, TranscriptFault>(
                message_views(list@),
            ),
            messages_well_formed(list@),
        decreases rows@.len() - i,
    {
        let ghost next = rows@.take(i + 1);
        assert(next.drop_last() == rows@.take(i as int));
        assert(next.last() == rows@[i as int]);
        match &rows[i] {
            Ok(row) => {
                let data = parse_json(row.data.as_str());
                assert(parse_view(data) == json_of_text(row.data@));
                match SessionMessage::from_row(row, data) {
                    Ok(message) => {
                        let ghost before = list@;
                        list.push(message);
                        assert(message_views(list@) == message_views(before).push(message@));
                    },
                    Err(error) => {
                        proof {
                            lemma_first_fault_stays(rows@, i + 1);
                        }
                        return Err(error);
                    },
                }
            },
            Err(cause) => {
                proof {
                    lemma_first_fault_stays(rows@, i + 1);
                }
                return Err(TranscriptError::of_step(DbStep::ReadMessage, cause.as_str()));
            },
        }
        i = i + 1;
    }
    assert(rows@.take(i as int) == rows@);
    Ok(list)
}

/// The parts of the rows that [`PARTS_QUERY`] gave; a row that could not be read stands as its
/// cause.
pub fn parts_from_rows(rows: &Vec<Result<PartRow, String>>) -> (parts: Result<
    Vec<MessagePart>,
    TranscriptError,
>)
    ensures
        match parts {
            Ok(list) => {
                &&& parts_of(rows@) == Ok::<Seq<Part>, TranscriptFault>(part_views(list@))
                &&& parts_well_formed(list@)
            },
            Err(e) => parts_of(rows@) == Err::<Seq<Part>, TranscriptFault>(e@),
        },
{
    let mut list: Vec<MessagePart> = Vec::new();
    let mut i: usize = 0;
    assert(rows@.take(0) == Seq::<Result<PartRow, String>>::empty());
    assert(part_views(list@) == Seq::<Part>::empty());
    while i < rows.len()
        invariant
            i <= rows@.len(),
            parts_of(rows@.take(i as int)) == Ok::<Seq<Part>, TranscriptFault>(part_views(list@)),
            parts_well_formed(list@),
        decreases rows@.len() - i,
    {
        let ghost next = rows@.take(i + 1);
        assert(next.drop_last() == rows@.take(i as int));
        assert(next.last() == rows@[i as int]);
        match &rows[i] {
            Ok(row) => {
                match parse_json(row.data.as_str()) {
                    Ok(json) => {
                        let part = MessagePart::from_row(row, json);
                        let ghost before = list@;
                        list.push(part);
                        assert(part_views(list@) == part_views(before).push(part@));
                    },
                    Err(_) => {},
                }
            },
            Err(cause) => {
                proof {
                    lemma_first_part_fault_stays(rows@, i + 1);
                }
                return Err(TranscriptError::of_step(DbStep::ReadPart, cause.as_str()));
            },
        }
        i = i + 1;
    }
    assert(rows@.take(i as int) == rows@);
    Ok(list)
}

/// The bodies of the parts that belong to a message, in order.
pub open spec fn parts_for(parts: Seq<Part>, id: Seq<char>) -> Seq<Json>
    decreases parts.len(),
{
    if parts.len() == 0 {
        seq![]
    } else if parts.last().message_id == id {
        parts_for(parts.drop_last(), id).push(parts.last().body)
    } else {
        parts_for(parts.drop_last(), id)
    }
}

/// The parts that belong to other messages, in order.
pub open spec fn parts_besides(parts: Seq<Part>, id: Seq<char>) -> Seq<Part>
    decreases parts.len(),
{
    if parts.len() == 0 {
        seq![]
    } else if parts.last().message_id == id {
        parts_besides(parts.drop_last(), id)
    } else {
        parts_besides(parts.drop_last(), id).push(parts.last())
    }
}

/// The document of an event: a message, and its parts where it has any.
pub open spec fn event_body(message: Json, parts: Seq<Json>) -> Json {
    if parts.len() == 0 {
        Json::Object(seq![("message"@, message)])
    } else {
        Json::Object(seq![("message"@, message), ("parts"@, Json::Array(parts))])
    }
}

/// No message before the one at `i` has its id.
pub open spec fn first_of_its_id(messages: Seq<Message>, i: int) -> bool {
    forall|j: int| 0 <= j < i ==> (#[trigger] messages[j]).id != messages[i].id
}

/// The event of the message at `i`. Parts go to the first message of their id.
pub open spec fn event_at(messages: Seq<Message>, parts: Seq<Part>, i: int) -> Json {
    event_body(
        messages[i].body,
        if first_of_its_id(messages, i) {
            parts_for(parts, messages[i].id)
        } else {
            seq![]
        },
    )
}

/// One event for each message, in order.
pub open spec fn events_of(messages: Seq<Message>, parts: Seq<Part>) -> Seq<Json> {
    Seq::new(messages.len(), |i: int| event_at(messages, parts, i))
}

/// The latest of `after` and the times of the messages.
pub open spec fn latest(after: int, messages: Seq<Message>) -> int
    decreases messages.len(),
{
    if messages.len() == 0 {
        after
    } else {
        let before = latest(after, messages.drop_last());
        if messages.last().time_updated > before {
            messages.last().time_updated as int
        } else {
            before
        }
    }
}

/// The mark behind a batch: the latest of its times, unless the calendar does not reach it; the
/// old mark then stays.
pub open spec fn mark_moves_to(
    old_mark: Timestamp,
    messages: Seq<Message>,
    new_mark: Timestamp,
) -> bool {
    let to = latest(old_mark.millis(), messages);
    if messages.len() == 0 || !(MIN_MILLIS <= to <= MAX_MILLIS) {
        new_mark == old_mark
    } else {
        &&& new_mark.seconds() == to / 1000
        &&& new_mark.nanoseconds() == (to % 1000) * 1_000_000
    }
}

/// What one read of a transcript gives.
#[derive(Debug, PartialEq)]
pub struct TranscriptBatch {
    pub events: Vec<JsonValue>,
    pub new_watermark: Timestamp,
}

/// The bodies of the parts that belong to the message `id`, and the other parts.
fn take_parts(parts: Vec<MessagePart>, id: &String) -> (split: (Vec<JsonValue>, Vec<MessagePart>))
    ensures
        item_views(split.0@) == parts_for(part_views(parts@), id@),
        part_views(split.1@) == parts_besides(part_views(parts@), id@),
        parts_well_formed(parts@) ==> all_well_formed(split.0@) && parts_well_formed(split.1@),
{
    let ghost all = part_views(parts@);
    let mut taken: Vec<JsonValue> = Vec::new();
    let mut rest: Vec<MessagePart> = Vec::new();
    assert(item_views(taken@) == Seq::<Json>::empty());
    assert(part_views(rest@) == Seq::<Part>::empty());
    assert(all.take(0) == Seq::<Part>::empty());
    for part in it: parts
        invariant
            it.seq() == parts@,
            all == part_views(parts@),
            item_views(taken@) == parts_for(all.take(it.index() as int), id@),
            part_views(rest@) == parts_besides(all.take(it.index() as int), id@),
            parts_well_formed(parts@) ==> all_well_formed(taken@) && parts_well_formed(rest@),
    {
        let ghost next = all.take(it.index() + 1);
        let ghost before_taken = taken@;
        let ghost before_rest = rest@;
        assert(next.drop_last() == all.take(it.index() as int));
        assert(next.last() == part@);
        if part.message_id == *id {
            taken.push(part.body);
            assert(item_views(taken@) == item_views(before_taken).push(part@.body));
        } else {
            rest.push(part);
            assert(part_views(rest@) == part_views(before_rest).push(part@));
        }
    }
    assert(all.take(all.len() as int) == all);
    (taken, rest)
}

/// The event of a message with its parts.
fn event_from(message: JsonValue, parts: Vec<JsonValue>) -> (event: JsonValue)
    ensures
        event@ == event_body(message@, item_views(parts@)),
        message@.well_formed() && all_well_formed(parts@) ==> event@.well_formed(),
{
    let mut members: Vec<(String, JsonValue)> = Vec::new();
    members.push(("message".to_owned(), message));
    if parts.len() > 0 {
        proof {
            JsonValue::lemma_array_view(parts);
        }
        members.push(("parts".to_owned(), JsonValue::Array(parts)));
    }
    proof {
        JsonValue::lemma_object_view(members);
        assert(member_views(members@) == event_body(message@, item_views(parts@))->Object_0);
        law_event_body_is_well_formed(message@, item_views(parts@));
    }
    JsonValue::Object(members)
}

proof fn lemma_parts_for_besides(parts: Seq<Part>, other: Seq<char>, id: Seq<char>)
    ensures
        parts_for(parts_besides(parts, other), id) == if other == id {
            seq![]
        } else {
            parts_for(parts, id)
        },
    decreases parts.len(),
{
    if parts.len() > 0 {
        let init = parts.drop_last();
        lemma_parts_for_besides(init, other, id);
        if parts.last().message_id != other {
            assert(parts_besides(init, other).push(parts.last()).drop_last() == parts_besides(
                init,
                other,
            ));
        }
    }
}

/// The parts that the first `n` messages leave over.
spec fn left_over(parts: Seq<Part>, messages: Seq<Message>, n: nat) -> Seq<Part>
    decreases n,
{
    if n == 0 {
        parts
    } else {
        parts_besides(left_over(parts, messages, (n - 1) as nat), messages[n - 1].id)
    }
}

proof fn lemma_left_over(parts: Seq<Part>, messages: Seq<Message>, n: nat, id: Seq<char>)
    ensures
        (exists|j: int| 0 <= j < n && (#[trigger] messages[j]).id == id) ==> parts_for(
            left_over(parts, messages, n),
            id,
        ) == Seq::<Json>::empty(),
        (forall|j: int| 0 <= j < n ==> (#[trigger] messages[j]).id != id) ==> parts_for(
            left_over(parts, messages, n),
            id,
        ) == parts_for(parts, id),
    decreases n,
{
    if n > 0 {
        let k = (n - 1) as nat;
        lemma_left_over(parts, messages, k, id);
        lemma_parts_for_besides(left_over(parts, messages, k), messages[n - 1].id, id);
    }
}

/// The latest of `after` and the times of the messages.
pub fn latest_update(after: i64, messages: &Vec<SessionMessage>) -> (to: i64)
    ensures
        to == latest(after as int, message_views(messages@)),
{
    let ghost all = message_views(messages@);
    let mut to: i64 = after;
    let mut i: usize = 0;
    assert(all.take(0) == Seq::<Message>::empty());
    while i < messages.len()
        invariant
            i <= messages@.len(),
            all == message_views(messages@),
            to == latest(after as int, all.take(i as int)),
        decreases messages@.len() - i,
    {
        let ghost next = all.take(i + 1);
        assert(next.drop_last() == all.take(i as int));
        assert(next.last() == messages@[i as int]@);
        if messages[i].time_updated > to {
            to = messages[i].time_updated;
        }
        i = i + 1;
    }
    assert(all.take(i as int) == all);
    to
}

impl TranscriptBatch {
    /// The batch of the messages and parts that were read from `old_mark` on.
    pub fn assemble(
        old_mark: Timestamp,
        messages: Vec<SessionMessage>,
        parts: Vec<MessagePart>,
    ) -> (batch: TranscriptBatch)
        ensures
            item_views(batch.events@) == events_of(
                message_views(messages@),
                part_views(parts@),
            ),
            mark_moves_to(old_mark, message_views(messages@), batch.new_watermark),
            messages_well_formed(messages@) && parts_well_formed(parts@) ==> all_well_formed(
                batch.events@,
            ),
    {
        let ghost all = message_views(messages@);
        let ghost all_parts = part_views(parts@);
        if messages.len() == 0 {
            let events: Vec<JsonValue> = Vec::new();
            assert(item_views(events@) == events_of(all, all_parts));
            return TranscriptBatch { events, new_watermark: old_mark };
        }
        let to = latest_update(old_mark.timestamp_millis(), &messages);
        let mut events: Vec<JsonValue> = Vec::new();
        let mut rest = parts;
        assert(item_views(events@) == events_of(all, all_parts).take(0));
        for message in it: messages
            invariant
                it.seq() == messages@,
                all == message_views(messages@),
                part_views(rest@) == left_over(all_parts, all, it.index() as nat),
                item_views(events@) == events_of(all, all_parts).take(it.index() as int),
                messages_well_formed(messages@) && parts_well_formed(parts@) ==> all_well_formed(
                    events@,
                ) && parts_well_formed(rest@),
        {
            let ghost i = it.index() as int;
            let ghost before = events@;
            assert(all[i] == message@);
            proof {
                lemma_left_over(all_parts, all, i as nat, message.id@);
                if !first_of_its_id(all, i) {
                    let j = choose|j: int| 0 <= j < i && !((#[trigger] all[j]).id != all[i].id);
                    assert(all[j].id == message.id@);
                }
            }
            let (own, others) = take_parts(rest, &message.id);
            rest = others;
            let event = event_from(message.body, own);
            assert(event@ == event_at(all, all_parts, i));
            events.push(event);
            proof {
                assert(item_views(events@) == item_views(before).push(event@));
                assert(events_of(all, all_parts).take(i).push(event@) == events_of(
                    all,
                    all_parts,
                ).take(i + 1));
            }
        }
        assert(events_of(all, all_parts).take(all.len() as int) == events_of(all, all_parts));
        let new_watermark = match Timestamp::from_timestamp_millis(to) {
            Some(mark) => mark,
            None => old_mark,
        };
        TranscriptBatch { events, new_watermark }
    }
}

/// The contents of messages and parts are those of their fields, item by item.
pub proof fn law_contents_of_messages_and_parts(
    messages: Seq<SessionMessage>,
    parts: Seq<MessagePart>,
)
    ensures
        message_views(messages).len() == messages.len(),
        forall|i: int|
            0 <= i < messages.len() ==> {
                &&& (#[trigger] message_views(messages)[i]).id == messages[i].id@
                &&& message_views(messages)[i].time_updated == messages[i].time_updated
                &&& message_views(messages)[i].body == messages[i].body@
            },
        part_views(parts).len() == parts.len(),
        forall|i: int|
            0 <= i < parts.len() ==> {
                &&& (#[trigger] part_views(parts)[i]).message_id == parts[i].message_id@
                &&& part_views(parts)[i].body == parts[i].body@
            },
{
}

/// What a parse gives is the content of the document, or the text of the message.
pub proof fn law_content_of_a_parse(data: Result<JsonValue, String>)
    ensures
        data matches Ok(json) ==> parse_view(data) == Ok::<Json, Seq<char>>(json@),
        data matches Err(cause) ==> parse_view(data) == Err::<Json, Seq<char>>(cause@),
{
}

} // verus!
