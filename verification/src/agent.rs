//! The reader of Kilo Code's transcripts.
use crate::errors::{concat2, step_fault, DbStep, TranscriptError, TranscriptFault};
use crate::json::{item_views, law_each_key_leads_to_its_member, member, Json, JsonValue};
use crate::transcript::{
    all_well_formed, event_body, events_of, law_event_body_is_well_formed,
    law_message_body_is_well_formed, lemma_keys_differ, mark_moves_to, message_body, message_views,
    messages_from_rows, messages_of, part_views, parts_from_rows, parts_of, Message, MessageRow,
    Part, PartRow, TranscriptBatch,
};
use crate::watermark::{Timestamp, Watermark};
use std::path::PathBuf;
use std::time::Duration;
use vstd::prelude::*;

verus! {

/// `std::path::PathBuf`: a path of the host, carried through unread.
#[verifier::external_type_specification]
#[verifier::external_body]
pub struct ExPathBuf(std::path::PathBuf);

/// `PathBuf::clone`: the same path.
pub assume_specification[ <std::path::PathBuf as Clone>::clone ](
    path: &std::path::PathBuf,
) -> (copy: std::path::PathBuf)
    ensures
        copy == *path,
;

/// Names the duration that `Duration::from_secs` makes of a number of seconds.
pub uninterp spec fn duration_of_secs(secs: u64) -> std::time::Duration;

/// `Duration::from_secs`: the duration of so many seconds.
pub assume_specification[ std::time::Duration::from_secs ](secs: u64) -> (duration:
    std::time::Duration)
    ensures
        duration == duration_of_secs(secs),
;

/// Reads the transcripts that Kilo Code keeps.
pub struct KiloAgent {
    batch_size: usize,
}

/// When transcripts are looked for.
#[derive(Clone, Copy, Debug, PartialEq, Eq)]
pub enum SweepStrategy {
    /// Again and again, so far apart.
    Periodic(Duration),
}

/// How a transcript is kept.
#[derive(Clone, Copy, Debug, PartialEq, Eq)]
pub enum TranscriptFormat {
    KiloCodeSqlite,
}

/// The kind of mark that a transcript is resumed from.
#[derive(Clone, Copy, Debug, PartialEq, Eq)]
pub enum WatermarkType {
    Timestamp,
}

/// A session found in a database.
#[derive(Debug, PartialEq)]
pub struct DiscoveredSession {
    pub session_id: String,
    pub tool: String,
    pub transcript_path: PathBuf,
    pub transcript_format: TranscriptFormat,
    pub watermark_type: WatermarkType,
    pub initial_watermark: Watermark,
    pub external_session_id: String,
    pub external_parent_session_id: Option<String>,
}

/// A row of the `session` table, with the id that the session gets outside of the database.
#[derive(Debug, PartialEq)]
pub struct SessionRow {
    pub id: String,
    pub parent_id: Option<String>,
    pub generated_id: String,
}

/// The texts of two options agree.
pub open spec fn same_option(a: Option<String>, b: Option<String>) -> bool {
    match (a, b) {
        (Some(x), Some(y)) => x@ == y@,
        (None, None) => true,
        _ => false,
    }
}

/// `session` is the session of a row in the database at `db_path`, to be read from the epoch on.
pub open spec fn is_session_of(
    session: DiscoveredSession,
    row: SessionRow,
    db_path: PathBuf,
) -> bool {
    &&& session.session_id@ == row.generated_id@
    &&& session.tool@ == "kilo"@
    &&& session.transcript_path == db_path
    &&& session.transcript_format == TranscriptFormat::KiloCodeSqlite
    &&& session.watermark_type == WatermarkType::Timestamp
    &&& session.initial_watermark matches Watermark::Timestamp(at) && at.seconds() == 0
        && at.nanoseconds() == 0
    &&& session.external_session_id@ == row.id@
    &&& same_option(session.external_parent_session_id, row.parent_id)
}

/// What a read asks of the database: the messages that changed after a time, so many at most.
#[derive(Clone, Copy, Debug, PartialEq, Eq)]
pub struct ReadRequest {
    pub after_updated: i64,
    pub limit: usize,
}

/// The rows that a query gave, each with the cause where it could not be read; or the error
/// that kept the query from being answered.
pub open spec fn answer_view<T>(answer: Result<Vec<Result<T, String>>, TranscriptError>) -> Result<
    Seq<Result<T, String>>,
    TranscriptFault,
> {
    match answer {
        Ok(rows) => Ok(rows@),
        Err(e) => Err(e@),
    }
}

/// The fault of a mark that is no timestamp.
pub open spec fn wrong_mark(session_id: Seq<char>) -> TranscriptFault {
    TranscriptFault::Fatal {
        message: "Kilo reader requires TimestampWatermark, got incompatible type for session "@
            + session_id,
    }
}

/// The messages and parts that a read takes in, or its fault: the mark's, the message query's
/// and its rows', and then, where there are messages, those of the parts.
pub open spec fn read_outcome(
    watermark: Watermark,
    session_id: Seq<char>,
    message_rows: Result<Seq<Result<MessageRow, String>>, TranscriptFault>,
    part_rows: Result<Seq<Result<PartRow, String>>, TranscriptFault>,
) -> Result<(Timestamp, Seq<Message>, Seq<Part>), TranscriptFault> {
    match watermark {
        Watermark::Other => Err(wrong_mark(session_id)),
        Watermark::Timestamp(mark) => match message_rows {
            Err(fault) => Err(fault),
            Ok(rows) => match messages_of(rows) {
                Err(fault) => Err(fault),
                Ok(messages) => if messages.len() == 0 {
                    Ok((mark, seq![], seq![]))
                } else {
                    match part_rows {
                        Err(fault) => Err(fault),
                        Ok(rows) => match parts_of(rows) {
                            Err(fault) => Err(fault),
                            Ok(parts) => Ok((mark, messages, parts)),
                        },
                    }
                },
            },
        },
    }
}

/// The call id of a part.
pub open spec fn call_id(part: Json) -> Option<Seq<char>> {
    match part.get("data"@) {
        Some(data) => data.text_under("callID"@),
        None => None,
    }
}

/// The call id of the first part that has one.
pub open spec fn first_call_id(parts: Seq<Json>) -> Option<Seq<char>>
    decreases parts.len(),
{
    if parts.len() == 0 {
        None
    } else {
        match call_id(parts.first()) {
            Some(id) => Some(id),
            None => first_call_id(parts.drop_first()),
        }
    }
}

/// The id of the event's message, that of the message's parent, and that of the tool call.
pub open spec fn event_ids(event: Json) -> (
    Option<Seq<char>>,
    Option<Seq<char>>,
    Option<Seq<char>>,
) {
    let message = event.get("message"@);
    (
        match message {
            Some(m) => m.text_under("id"@),
            None => None,
        },
        match message {
            Some(m) => match m.get("data"@) {
                Some(data) => data.text_under("parentID"@),
                None => None,
            },
            None => None,
        },
        match event.get("parts"@) {
            Some(Json::Array(parts)) => first_call_id(parts),
            _ => None,
        },
    )
}

/// The text of an option.
pub open spec fn option_view(o: Option<String>) -> Option<Seq<char>> {
    match o {
        Some(s) => Some(s@),
        None => None,
    }
}

fn wrong_mark_error(session_id: &str) -> (error: TranscriptError)
    ensures
        error@ == wrong_mark(session_id@),
{
    TranscriptError::Fatal {
        message: concat2(
            "Kilo reader requires TimestampWatermark, got incompatible type for session ",
            session_id,
        ),
    }
}

fn find_call_id(part: &JsonValue) -> (id: Option<String>)
    ensures
        option_view(id) == call_id(part@),
{
    match part.get("data") {
        Some(data) => data.text_under("callID"),
        None => None,
    }
}

fn find_first_call_id(parts: &Vec<JsonValue>) -> (id: Option<String>)
    ensures
        option_view(id) == first_call_id(item_views(parts@)),
{
    let ghost all = item_views(parts@);
    let mut i: usize = 0;
    assert(all.skip(0) == all);
    while i < parts.len()
        invariant
            i <= parts@.len(),
            all == item_views(parts@),
            first_call_id(all.skip(i as int)) == first_call_id(all),
        decreases parts@.len() - i,
    {
        assert(all.skip(i as int).first() == parts@[i as int]@);
        assert(all.skip(i as int).drop_first() == all.skip(i + 1));
        let id = find_call_id(&parts[i]);
        if id.is_some() {
            return id;
        }
        i = i + 1;
    }
    None
}

impl Default for KiloAgent {
    fn default() -> (agent: KiloAgent)
        ensures
            agent.batch() == 1000,
    {
        KiloAgent::new()
    }
}

impl KiloAgent {
    /// The number of messages that one read takes at most.
    pub closed spec fn batch(self) -> usize {
        self.batch_size
    }

    pub fn new() -> (agent: KiloAgent)
        ensures
            agent.batch() == 1000,
    {
        KiloAgent { batch_size: 1000 }
    }

    pub fn with_batch_size(batch_size: usize) -> (agent: KiloAgent)
        ensures
            agent.batch() == batch_size,
    {
        KiloAgent { batch_size }
    }

    pub fn batch_size_hint(&self) -> (size: usize)
        ensures
            size == self.batch(),
    {
        self.batch_size
    }

    /// Transcripts are looked for every half hour.
    pub fn sweep_strategy(&self) -> (strategy: SweepStrategy)
        ensures
            strategy == SweepStrategy::Periodic(duration_of_secs(1800)),
    {
        SweepStrategy::Periodic(Duration::from_secs(30 * 60))
    }

    /// The sessions of the rows in the database at `db_path`; a row that could not be read
    /// stands as its cause. The first such row is the error of all.
    pub fn discover_sessions_from_rows(
        db_path: &PathBuf,
        rows: &Vec<Result<SessionRow, String>>,
    ) -> (sessions: Result<Vec<DiscoveredSession>, TranscriptError>)
        ensures
            match sessions {
                Ok(list) => {
                    &&& list@.len() == rows@.len()
                    &&& forall|i: int|
                        0 <= i < rows@.len() ==> (#[trigger] rows@[i]) is Ok && is_session_of(
                            list@[i],
                            rows@[i]->Ok_0,
                            *db_path,
                        )
                },
                Err(e) => exists|i: int|
                    {
                        &&& 0 <= i < rows@.len()
                        &&& (#[trigger] rows@[i]) is Err
                        &&& forall|j: int| 0 <= j < i ==> (#[trigger] rows@[j]) is Ok
                        &&& e@ == step_fault(DbStep::ReadSession, rows@[i]->Err_0@)
                    },
            },
    {
        let mut list: Vec<DiscoveredSession> = Vec::new();
        let mut i: usize = 0;
        while i < rows.len()
            invariant
                i <= rows@.len(),
                list@.len() == i,
                forall|j: int|
                    0 <= j < i ==> (#[trigger] rows@[j]) is Ok && is_session_of(
                        list@[j],
                        rows@[j]->Ok_0,
                        *db_path,
                    ),
            decreases rows@.len() - i,
        {
            match &rows[i] {
                Ok(row) => {
                    list.push(
                        DiscoveredSession {
                            session_id: row.generated_id.clone(),
                            tool: "kilo".to_owned(),
                            transcript_path: db_path.clone(),
                            transcript_format: TranscriptFormat::KiloCodeSqlite,
                            watermark_type: WatermarkType::Timestamp,
                            initial_watermark: Watermark::Timestamp(Timestamp::epoch()),
                            external_session_id: row.id.clone(),
                            external_parent_session_id: copy_option(&row.parent_id),
                        },
                    );
                },
                Err(cause) => {
                    assert(rows@[i as int] is Err);
                    return Err(TranscriptError::of_step(DbStep::ReadSession, cause.as_str()));
                },
            }
            i = i + 1;
        }
        Ok(list)
    }

    /// What a read from a mark on asks of the database. Only a timestamp fits.
    pub fn begin_read(&self, watermark: Watermark, session_id: &str) -> (request: Result<
        ReadRequest,
        TranscriptError,
    >)
        ensures
            match request {
                Ok(r) => {
                    &&& watermark matches Watermark::Timestamp(mark)
                    &&& r.after_updated == mark.millis()
                    &&& r.limit == self.batch()
                },
                Err(e) => {
                    &&& watermark is Other
                    &&& e@ == wrong_mark(session_id@)
                },
            },
    {
        match watermark {
            Watermark::Timestamp(mark) => Ok(
                ReadRequest { after_updated: mark.timestamp_millis(), limit: self.batch_size },
            ),
            Watermark::Other => Err(wrong_mark_error(session_id)),
        }
    }

    /// The batch that a read from a mark on gives, from the rows of the two queries.
    pub fn read_incremental(
        &self,
        watermark: Watermark,
        session_id: &str,
        message_rows: Result<Vec<Result<MessageRow, String>>, TranscriptError>,
        part_rows: Result<Vec<Result<PartRow, String>>, TranscriptError>,
    ) -> (batch: Result<TranscriptBatch, TranscriptError>)
        ensures
            match (
                batch,
                read_outcome(
                    watermark,
                    session_id@,
                    answer_view(message_rows),
                    answer_view(part_rows),
                ),
            ) {
                (Ok(b), Ok((mark, messages, parts))) => {
                    &&& item_views(b.events@) == events_of(messages, parts)
                    &&& mark_moves_to(mark, messages, b.new_watermark)
                    &&& all_well_formed(b.events@)
                },
                (Err(e), Err(fault)) => e@ == fault,
                _ => false,
            },
    {
        let mark = match watermark {
            Watermark::Timestamp(mark) => mark,
            Watermark::Other => {
                return Err(wrong_mark_error(session_id));
            },
        };
        let messages = match message_rows {
            Ok(rows) => match messages_from_rows(&rows) {
                Ok(messages) => messages,
                Err(error) => {
                    return Err(error);
                },
            },
            Err(error) => {
                return Err(error);
            },
        };
        assert(message_views(messages@).len() == messages@.len());
        if messages.len() == 0 {
            let parts = Vec::new();
            assert(message_views(messages@) == Seq::<Message>::empty());
            assert(part_views(parts@) == Seq::<Part>::empty());
            return Ok(TranscriptBatch::assemble(mark, messages, parts));
        }
        match part_rows {
            Ok(rows) => match parts_from_rows(&rows) {
                Ok(parts) => Ok(TranscriptBatch::assemble(mark, messages, parts)),
                Err(error) => Err(error),
            },
            Err(error) => Err(error),
        }
    }

    /// The id of the event's message, that of the message's parent, and that of the tool call.
    pub fn extract_event_ids(&self, event: &JsonValue) -> (ids: (
        Option<String>,
        Option<String>,
        Option<String>,
    ))
        ensures
            (option_view(ids.0), option_view(ids.1), option_view(ids.2)) == event_ids(event@),
    {
        let message = event.get("message");
        let event_id = match message {
            Some(m) => m.text_under("id"),
            None => None,
        };
        let parent_event_id = match message {
            Some(m) => match m.get("data") {
                Some(data) => data.text_under("parentID"),
                None => None,
            },
            None => None,
        };
        let tool_use_id = match event.get("parts") {
            Some(JsonValue::Array(parts)) => {
                proof {
                    JsonValue::lemma_array_view(*parts);
                }
                find_first_call_id(parts)
            },
            _ => None,
        };
        (event_id, parent_event_id, tool_use_id)
    }

    /// The time of an event: its own, or else the one that stands in for it.
    pub fn extract_event_timestamp(&self, own: Option<u32>, fallback: u32) -> (time: u32)
        ensures
            time == match own {
                Some(t) => t,
                None => fallback,
            },
    {
        match own {
            Some(t) => t,
            None => fallback,
        }
    }
}

pub(crate) fn copy_option(o: &Option<String>) -> (c: Option<String>)
    ensures
        same_option(c, *o),
{
    match o {
        Some(s) => Some(s.clone()),
        None => None,
    }
}

/// The ids of an event that was read are those of the row, of the parent that its data names,
/// and of the first tool call among its parts.
pub proof fn law_event_ids_are_those_of_its_row(row: MessageRow, data: Json, parts: Seq<Json>)
    ensures
        event_ids(event_body(message_body(row, data), parts)) == (
            Some(row.id@),
            data.text_under("parentID"@),
            first_call_id(parts),
        ),
{
    let message = message_body(row, data);
    let event = event_body(message, parts);
    law_message_body_is_well_formed(row, data);
    law_event_body_is_well_formed(message, parts);
    law_each_key_leads_to_its_member(message->Object_0, 0);
    law_each_key_leads_to_its_member(message->Object_0, 4);
    law_each_key_leads_to_its_member(event->Object_0, 0);
    if parts.len() > 0 {
        law_each_key_leads_to_its_member(event->Object_0, 1);
    } else {
        lemma_keys_differ();
        reveal_with_fuel(member, 3);
        assert(event.get("parts"@) is None);
    }
}

/// A part has a text under `callID` in its data.
pub open spec fn names_a_call(part: Json) -> bool {
    match part.get("data"@) {
        Some(data) => data.get("callID"@) matches Some(Json::Text(_)),
        None => false,
    }
}

/// The tool call of an event is that of the first of its parts with a text under `callID` in its
/// data, however many parts without one stand before it; it has none only where no part has such
/// a text, or there are no parts.
pub proof fn law_tool_call_is_that_of_the_first_part_with_one(
    event: Json,
    parts: Seq<Json>,
    k: int,
)
    ensures
        event.get("parts"@) == Some(Json::Array(parts)) && 0 <= k < parts.len() && names_a_call(
            parts[k],
        ) && (forall|j: int| 0 <= j < k ==> !names_a_call(#[trigger] parts[j])) ==> event_ids(
            event,
        ).2 == Some(parts[k].get("data"@)->0.get("callID"@)->0->Text_0),
        event.get("parts"@) == Some(Json::Array(parts)) ==> (event_ids(event).2 is None
            <==> forall|j: int| 0 <= j < parts.len() ==> !names_a_call(#[trigger] parts[j])),
        !(event.get("parts"@) matches Some(Json::Array(_))) ==> event_ids(event).2 is None,
{
    lemma_first_call(parts);
}

/// The id of an event is the text under `id` in its message, and that of its parent the text
/// under `parentID` in the message's data; there is none where there is no such text.
pub proof fn law_event_id_and_parent_stand_in_the_message(event: Json, id: Seq<char>)
    ensures
        event_ids(event).0 == Some(id) <==> {
            &&& event.get("message"@) is Some
            &&& event.get("message"@)->0.get("id"@) == Some(Json::Text(id))
        },
        event_ids(event).1 == Some(id) <==> {
            &&& event.get("message"@) is Some
            &&& event.get("message"@)->0.get("data"@) is Some
            &&& event.get("message"@)->0.get("data"@)->0.get("parentID"@) == Some(Json::Text(id))
        },
{
}

/// A session that was discovered is that of its row, lies in the database, and is read from the
/// epoch on.
pub proof fn law_discovered_session_is_that_of_its_row(
    session: DiscoveredSession,
    row: SessionRow,
    db_path: PathBuf,
)
    requires
        is_session_of(session, row, db_path),
    ensures
        session.tool@ == "kilo"@,
        session.session_id@ == row.generated_id@,
        session.external_session_id@ == row.id@,
        session.external_parent_session_id is Some == row.parent_id is Some,
        row.parent_id is Some ==> session.external_parent_session_id->0@ == row.parent_id->0@,
        session.transcript_path == db_path,
        session.initial_watermark is Timestamp,
        session.initial_watermark->Timestamp_0.millis() == 0,
{
}

/// The texts of options agree where both are there and the same, or neither is there.
pub proof fn law_option_texts(a: Option<String>, b: Option<String>)
    ensures
        option_view(a) is Some == a is Some,
        a is Some ==> option_view(a)->0 == a->0@,
        same_option(a, b) <==> option_view(a) == option_view(b),
{
}

/// A mark that is no timestamp is refused by an error that names the session, whatever the
/// database says.
pub proof fn law_wrong_mark_is_refused(
    session_id: Seq<char>,
    message_rows: Result<Seq<Result<MessageRow, String>>, TranscriptFault>,
    part_rows: Result<Seq<Result<PartRow, String>>, TranscriptFault>,
)
    ensures
        read_outcome(Watermark::Other, session_id, message_rows, part_rows) == Err::<
            (Timestamp, Seq<Message>, Seq<Part>),
            TranscriptFault,
        >(
            TranscriptFault::Fatal {
                message:
                    "Kilo reader requires TimestampWatermark, got incompatible type for session "@
                    + session_id,
            },
        ),
{
}

proof fn lemma_first_call(parts: Seq<Json>)
    ensures
        forall|k: int|
            0 <= k < parts.len() && names_a_call(#[trigger] parts[k]) && (forall|j: int|
                0 <= j < k ==> !names_a_call(#[trigger] parts[j])) ==> first_call_id(parts)
                == call_id(parts[k]),
        (forall|j: int| 0 <= j < parts.len() ==> !names_a_call(#[trigger] parts[j]))
            <==> first_call_id(parts) is None,
    decreases parts.len(),
{
    if parts.len() > 0 {
        let rest = parts.drop_first();
        lemma_first_call(rest);
        assert(call_id(parts[0]) is Some <==> names_a_call(parts[0]));
        assert forall|j: int| 0 <= j < rest.len() implies #[trigger] rest[j] == parts[j + 1] by {}
        assert forall|k: int|
            0 <= k < parts.len() && names_a_call(#[trigger] parts[k]) && (forall|j: int|
                0 <= j < k ==> !names_a_call(#[trigger] parts[j])) implies first_call_id(parts)
            == call_id(parts[k]) by {
            if k > 0 {
                assert(!names_a_call(parts[0]));
                assert(rest[k - 1] == parts[k]);
            }
        }
        if first_call_id(parts) is None {
            assert forall|j: int| 0 <= j < parts.len() implies !names_a_call(
                #[trigger] parts[j],
            ) by {
                if j > 0 {
                    assert(rest[j - 1] == parts[j]);
                }
            }
        }
        if forall|j: int| 0 <= j < parts.len() ==> !names_a_call(#[trigger] parts[j]) {
            assert(!names_a_call(parts[0]));
            assert forall|j: int| 0 <= j < rest.len() implies !names_a_call(#[trigger] rest[j]) by {
                assert(rest[j] == parts[j + 1]);
            }
        }
    }
}

/// What a query answers is its rows, or the error.
pub proof fn law_content_of_an_answer<T>(
    answer: Result<Vec<Result<T, String>>, TranscriptError>,
)
    ensures
        answer matches Ok(rows) ==> answer_view(answer) == Ok::<
            Seq<Result<T, String>>,
            TranscriptFault,
        >(rows@),
        answer matches Err(e) ==> answer_view(answer) == Err::<
            Seq<Result<T, String>>,
            TranscriptFault,
        >(e@),
{
}

} // verus!
