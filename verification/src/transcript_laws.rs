//! What a read makes of the rows of the database, row by row.
use crate::agent::read_outcome;
use crate::errors::TranscriptFault;
use crate::json::{
    json_integer, json_of_text, law_each_key_leads_to_its_member,
    law_key_leads_to_its_first_member, Json,
};
use crate::paging::lemma_latest_bounds;
use crate::transcript::{
    event_body, events_of, first_of_its_id, latest, law_event_body_is_well_formed,
    law_message_body_is_well_formed, law_part_body_is_well_formed, lemma_first_fault_stays,
    lemma_first_part_fault_stays, lemma_keys_differ, mark_moves_to, message_body, messages_of,
    part_body, parts_for, parts_of, Message, MessageRow, Part, PartRow,
};
use crate::watermark::{Timestamp, Watermark, MAX_MILLIS, MIN_MILLIS};
use vstd::prelude::*;

verus! {

/// The document of a message holds each column of its row under the column's name, and the
/// parsed data.
pub proof fn law_message_holds_its_row(row: MessageRow, data: Json)
    ensures
        message_body(row, data).get("id"@) == Some(Json::Text(row.id@)),
        message_body(row, data).get("session_id"@) == Some(Json::Text(row.session_id@)),
        message_body(row, data).get("time_created"@) == Some(
            Json::Number(json_integer(row.time_created)),
        ),
        message_body(row, data).get("time_updated"@) == Some(
            Json::Number(json_integer(row.time_updated)),
        ),
        message_body(row, data).get("data"@) == Some(data),
        message_body(row, data) is Object,
        message_body(row, data)->Object_0.len() == 5,
{
    let m = message_body(row, data)->Object_0;
    law_message_body_is_well_formed(row, data);
    law_each_key_leads_to_its_member(m, 0);
    law_each_key_leads_to_its_member(m, 1);
    law_each_key_leads_to_its_member(m, 2);
    law_each_key_leads_to_its_member(m, 3);
    law_each_key_leads_to_its_member(m, 4);
}

/// The document of a part holds each column of its row under the column's name, and the parsed
/// data.
pub proof fn law_part_holds_its_row(row: PartRow, data: Json)
    ensures
        part_body(row, data).get("id"@) == Some(Json::Text(row.id@)),
        part_body(row, data).get("message_id"@) == Some(Json::Text(row.message_id@)),
        part_body(row, data).get("session_id"@) == Some(Json::Text(row.session_id@)),
        part_body(row, data).get("time_created"@) == Some(
            Json::Number(json_integer(row.time_created)),
        ),
        part_body(row, data).get("time_updated"@) == Some(
            Json::Number(json_integer(row.time_updated)),
        ),
        part_body(row, data).get("data"@) == Some(data),
        part_body(row, data) is Object,
        part_body(row, data)->Object_0.len() == 6,
{
    let m = part_body(row, data)->Object_0;
    law_part_body_is_well_formed(row, data);
    law_each_key_leads_to_its_member(m, 0);
    law_each_key_leads_to_its_member(m, 1);
    law_each_key_leads_to_its_member(m, 2);
    law_each_key_leads_to_its_member(m, 3);
    law_each_key_leads_to_its_member(m, 4);
    law_each_key_leads_to_its_member(m, 5);
}

/// An event holds its message, and its parts as an array where there are any; nothing else.
pub proof fn law_event_holds_message_and_parts(message: Json, parts: Seq<Json>)
    ensures
        event_body(message, parts) is Object,
        event_body(message, parts).get("message"@) == Some(message),
        parts.len() > 0 ==> event_body(message, parts).get("parts"@) == Some(Json::Array(parts)),
        parts.len() == 0 ==> event_body(message, parts).get("parts"@) is None,
        forall|key: Seq<char>|
            (#[trigger] event_body(message, parts).get(key)) is Some ==> key == "message"@ || key
                == "parts"@,
{
    let m = event_body(message, parts)->Object_0;
    lemma_keys_differ();
    law_event_body_is_well_formed(message, parts);
    law_each_key_leads_to_its_member(m, 0);
    if parts.len() > 0 {
        law_each_key_leads_to_its_member(m, 1);
    }
    assert forall|key: Seq<char>| (#[trigger] event_body(message, parts).get(key)) is Some implies
        key == "message"@ || key == "parts"@ by {
        law_key_leads_to_its_first_member(m, key, 0);
        let j = choose|j: int| 0 <= j < m.len() && !((#[trigger] m[j]).0 != key);
        assert(m[j].0 == key);
    }
    if parts.len() == 0 {
        law_key_leads_to_its_first_member(m, "parts"@, 0);
    }
}

/// The row can be read and its data parses.
pub open spec fn good_message(row: Result<MessageRow, String>) -> bool {
    row is Ok && json_of_text(row->Ok_0.data@) is Ok
}

/// Where every row is good there is one message for each, in order, with the row's id, time and
/// document.
pub proof fn law_messages_stand_for_their_rows(rows: Seq<Result<MessageRow, String>>)
    ensures
        messages_of(rows) is Ok <==> forall|i: int|
            0 <= i < rows.len() ==> good_message(#[trigger] rows[i]),
        messages_of(rows) matches Ok(list) ==> {
            &&& list.len() == rows.len()
            &&& forall|i: int|
                0 <= i < rows.len() ==> {
                    &&& (#[trigger] list[i]).id == rows[i]->Ok_0.id@
                    &&& list[i].time_updated == rows[i]->Ok_0.time_updated
                    &&& list[i].body == message_body(
                        rows[i]->Ok_0,
                        json_of_text(rows[i]->Ok_0.data@)->Ok_0,
                    )
                }
        },
    decreases rows.len(),
{
    if rows.len() > 0 {
        let init = rows.drop_last();
        law_messages_stand_for_their_rows(init);
        assert forall|i: int| 0 <= i < init.len() implies #[trigger] init[i] == rows[i] by {}
        assert(rows[rows.len() - 1] == rows.last());
        if messages_of(rows) is Ok {
            assert forall|i: int| 0 <= i < rows.len() implies good_message(#[trigger] rows[i]) by {
                if i < init.len() {
                    assert(good_message(init[i]));
                }
            }
        } else if forall|i: int| 0 <= i < rows.len() ==> good_message(#[trigger] rows[i]) {
            assert forall|i: int| 0 <= i < init.len() implies good_message(#[trigger] init[i]) by {
                assert(init[i] == rows[i]);
            }
            assert(good_message(rows[rows.len() - 1]));
        }
    }
}

/// The first row that is not good gives the error: that it could not be read, with its cause, or
/// that its data does not parse, with its id.
pub proof fn law_first_bad_message_row_is_the_error(
    rows: Seq<Result<MessageRow, String>>,
    i: int,
)
    requires
        0 <= i < rows.len(),
        !good_message(rows[i]),
        forall|j: int| 0 <= j < i ==> good_message(#[trigger] rows[j]),
    ensures
        messages_of(rows) == Err::<Seq<Message>, TranscriptFault>(
            match rows[i] {
                Err(cause) => TranscriptFault::Fatal {
                    message: "Failed to read message row: "@ + cause@,
                },
                Ok(row) => TranscriptFault::Parse {
                    line: 0,
                    message: "Failed to parse message data for id "@ + row.id@ + ": "@
                        + json_of_text(row.data@)->Err_0,
                },
            },
        ),
{
    let upto = rows.take(i + 1);
    let before = rows.take(i);
    assert(upto.drop_last() == before);
    assert(upto.last() == rows[i]);
    assert forall|j: int| 0 <= j < before.len() implies good_message(#[trigger] before[j]) by {
        assert(before[j] == rows[j]);
    }
    law_messages_stand_for_their_rows(before);
    lemma_first_fault_stays(rows, i + 1);
}

/// The row can be read, its data parses, and it belongs to the message `id`.
pub open spec fn is_part_of(row: Result<PartRow, String>, id: Seq<char>) -> bool {
    &&& row is Ok
    &&& json_of_text(row->Ok_0.data@) is Ok
    &&& row->Ok_0.message_id@ == id
}

/// The document of a part whose row is good.
pub open spec fn part_of_row(row: Result<PartRow, String>) -> Json {
    part_body(row->Ok_0, json_of_text(row->Ok_0.data@)->Ok_0)
}

/// The good part rows of a message, in the order of the rows.
pub open spec fn rows_of_message(rows: Seq<Result<PartRow, String>>, id: Seq<char>) -> Seq<
    Result<PartRow, String>,
> {
    rows.filter(|row: Result<PartRow, String>| is_part_of(row, id))
}

/// Where every part row can be read, each message has the parts of its good rows, all of them
/// and in their order. A row that cannot be read is the error; the first one is.
pub proof fn law_parts_stand_for_their_rows(rows: Seq<Result<PartRow, String>>, id: Seq<char>)
    ensures
        parts_of(rows) is Ok <==> forall|i: int|
            0 <= i < rows.len() ==> (#[trigger] rows[i]) is Ok,
        parts_of(rows) matches Ok(parts) ==> parts_for(parts, id) == rows_of_message(
            rows,
            id,
        ).map_values(|row: Result<PartRow, String>| part_of_row(row)),
    decreases rows.len(),
{
    let f = |row: Result<PartRow, String>| part_of_row(row);
    reveal(Seq::filter);
    if rows.len() > 0 {
        let init = rows.drop_last();
        law_parts_stand_for_their_rows(init, id);
        assert forall|i: int| 0 <= i < init.len() implies #[trigger] init[i] == rows[i] by {}
        assert(rows[rows.len() - 1] == rows.last());
        if parts_of(rows) is Ok {
            assert forall|i: int| 0 <= i < rows.len() implies (#[trigger] rows[i]) is Ok by {
                if i < init.len() {
                    assert(init[i] is Ok);
                }
            }
            let before = parts_of(init)->Ok_0;
            let parts = parts_of(rows)->Ok_0;
            if json_of_text(rows.last()->Ok_0.data@) is Ok {
                assert(parts.drop_last() == before);
                assert(parts.last().message_id == rows.last()->Ok_0.message_id@);
                assert(parts.last().body == part_of_row(rows.last()));
            }
            if is_part_of(rows.last(), id) {
                assert(rows_of_message(rows, id) == rows_of_message(init, id).push(rows.last()));
                assert(rows_of_message(rows, id).map_values(f) == rows_of_message(
                    init,
                    id,
                ).map_values(f).push(part_of_row(rows.last())));
            } else {
                assert(rows_of_message(rows, id) == rows_of_message(init, id));
            }
        } else if forall|i: int| 0 <= i < rows.len() ==> (#[trigger] rows[i]) is Ok {
            assert forall|i: int| 0 <= i < init.len() implies (#[trigger] init[i]) is Ok by {
                assert(init[i] == rows[i]);
            }
        }
    } else {
        assert(rows_of_message(rows, id).map_values(f) == Seq::<Json>::empty());
    }
}

/// The first part row that cannot be read gives the error, with its cause.
pub proof fn law_first_unread_part_row_is_the_error(rows: Seq<Result<PartRow, String>>, i: int)
    requires
        0 <= i < rows.len(),
        rows[i] is Err,
        forall|j: int| 0 <= j < i ==> (#[trigger] rows[j]) is Ok,
    ensures
        parts_of(rows) == Err::<Seq<Part>, TranscriptFault>(
            TranscriptFault::Fatal { message: "Failed to read part row: "@ + rows[i]->Err_0@ },
        ),
{
    let upto = rows.take(i + 1);
    let before = rows.take(i);
    assert(upto.drop_last() == before);
    assert(upto.last() == rows[i]);
    assert forall|j: int| 0 <= j < before.len() implies (#[trigger] before[j]) is Ok by {
        assert(before[j] == rows[j]);
    }
    law_parts_stand_for_their_rows(before, seq![]);
    lemma_first_part_fault_stays(rows, i + 1);
}

/// A read gives one event for each message row, in order. The event of a row holds the row's
/// message, and as many parts as there are good part rows of that message, each part in the place
/// of its row; where another row before it has the same id, the parts are with that one.
pub proof fn law_read_gives_each_message_its_parts(
    mark: Timestamp,
    session_id: Seq<char>,
    rows: Seq<Result<MessageRow, String>>,
    part_rows: Seq<Result<PartRow, String>>,
    i: int,
    k: int,
)
    requires
        forall|j: int| 0 <= j < rows.len() ==> good_message(#[trigger] rows[j]),
        forall|j: int| 0 <= j < part_rows.len() ==> (#[trigger] part_rows[j]) is Ok,
        0 <= i < rows.len(),
    ensures
        read_outcome(
            Watermark::Timestamp(mark),
            session_id,
            Ok::<Seq<Result<MessageRow, String>>, TranscriptFault>(rows),
            Ok::<Seq<Result<PartRow, String>>, TranscriptFault>(part_rows),
        ) matches Ok((from, messages, parts)) && {
            let events = events_of(messages, parts);
            let own = rows_of_message(part_rows, rows[i]->Ok_0.id@);
            let first = forall|j: int|
                0 <= j < i ==> (#[trigger] rows[j])->Ok_0.id@ != rows[i]->Ok_0.id@;
            &&& from == mark
            &&& messages.len() == rows.len()
            &&& messages[i].time_updated == rows[i]->Ok_0.time_updated
            &&& events.len() == rows.len()
            &&& events[i].get("message"@) == Some(
                message_body(rows[i]->Ok_0, json_of_text(rows[i]->Ok_0.data@)->Ok_0),
            )
            &&& !first || own.len() == 0 ==> events[i].get("parts"@) is None
            &&& first && own.len() > 0 ==> {
                &&& events[i].get("parts"@) matches Some(Json::Array(list))
                &&& list.len() == own.len()
                &&& 0 <= k < own.len() ==> list[k] == part_body(
                    own[k]->Ok_0,
                    json_of_text(own[k]->Ok_0.data@)->Ok_0,
                )
            }
        },
{
    let id = rows[i]->Ok_0.id@;
    law_messages_stand_for_their_rows(rows);
    law_parts_stand_for_their_rows(part_rows, id);
    let messages = messages_of(rows)->Ok_0;
    let parts = parts_of(part_rows)->Ok_0;
    let own = rows_of_message(part_rows, id);
    let first = forall|j: int| 0 <= j < i ==> (#[trigger] rows[j])->Ok_0.id@ != rows[i]->Ok_0.id@;
    assert(messages[i].id == id);
    assert(first == first_of_its_id(messages, i)) by {
        if first {
            assert forall|j: int| 0 <= j < i implies (#[trigger] messages[j]).id
                != messages[i].id by {
                assert(messages[j].id == rows[j]->Ok_0.id@);
            }
        }
        if first_of_its_id(messages, i) {
            assert forall|j: int| 0 <= j < i implies (#[trigger] rows[j])->Ok_0.id@
                != rows[i]->Ok_0.id@ by {
                assert(messages[j].id == rows[j]->Ok_0.id@);
            }
        }
    }
    let bodies = own.map_values(|row: Result<PartRow, String>| part_of_row(row));
    assert(parts_for(parts, id) == bodies);
    let event = events_of(messages, parts)[i];
    if first {
        law_event_holds_message_and_parts(messages[i].body, bodies);
        assert(event == event_body(messages[i].body, bodies));
    } else {
        law_event_holds_message_and_parts(messages[i].body, seq![]);
        assert(event == event_body(messages[i].body, seq![]));
    }
}

/// The rows that belong to a message are those that can be read, parse and name it: every one of
/// them, and no other.
pub proof fn law_rows_of_a_message(rows: Seq<Result<PartRow, String>>, id: Seq<char>) -> (at: Seq<
    int,
>)
    ensures
        at.len() == rows_of_message(rows, id).len(),
        forall|k: int|
            0 <= k < at.len() ==> 0 <= #[trigger] at[k] < rows.len() && rows[at[k]]
                == rows_of_message(rows, id)[k] && is_part_of(rows[at[k]], id),
        forall|j: int, k: int| 0 <= j < k < at.len() ==> #[trigger] at[j] < #[trigger] at[k],
        forall|i: int| 0 <= i < rows.len() && is_part_of(#[trigger] rows[i], id) ==> at.contains(i),
    decreases rows.len(),
{
    reveal(Seq::filter);
    if rows.len() == 0 {
        seq![]
    } else {
        let init = rows.drop_last();
        let old_at = law_rows_of_a_message(init, id);
        assert forall|k: int| 0 <= k < old_at.len() implies 0 <= #[trigger] old_at[k] < init.len()
            && rows[old_at[k]] == init[old_at[k]] by {}
        let keep = is_part_of(rows.last(), id);
        let at = if keep {
            old_at.push(rows.len() - 1)
        } else {
            old_at
        };
        assert forall|i: int| 0 <= i < rows.len() && is_part_of(#[trigger] rows[i], id) implies
            at.contains(i) by {
            if i < init.len() {
                assert(init[i] == rows[i]);
                let k = choose|k: int| 0 <= k < old_at.len() && old_at[k] == i;
                assert(at[k] == i);
            } else {
                assert(at[at.len() - 1] == i);
            }
        }
        at
    }
}

/// A failed query fails the read: that of the messages always, that of the parts where there is
/// a message. Without messages a read gives nothing and asks nothing of the parts.
pub proof fn law_failed_queries_fail_the_read(
    mark: Timestamp,
    session_id: Seq<char>,
    rows: Seq<Result<MessageRow, String>>,
    part_rows: Result<Seq<Result<PartRow, String>>, TranscriptFault>,
    fault: TranscriptFault,
)
    ensures
        read_outcome(Watermark::Timestamp(mark), session_id, Err(fault), part_rows) == Err::<
            (Timestamp, Seq<Message>, Seq<Part>),
            TranscriptFault,
        >(fault),
        messages_of(rows) is Err ==> read_outcome(
            Watermark::Timestamp(mark),
            session_id,
            Ok(rows),
            part_rows,
        ) == Err::<(Timestamp, Seq<Message>, Seq<Part>), TranscriptFault>(messages_of(rows)->Err_0),
        messages_of(rows) is Ok && rows.len() > 0 ==> read_outcome(
            Watermark::Timestamp(mark),
            session_id,
            Ok(rows),
            Err(fault),
        ) == Err::<(Timestamp, Seq<Message>, Seq<Part>), TranscriptFault>(fault),
        messages_of(rows) is Ok && rows.len() > 0 && part_rows is Ok && parts_of(
            part_rows->Ok_0,
        ) is Err ==> read_outcome(Watermark::Timestamp(mark), session_id, Ok(rows), part_rows) == Err::<
            (Timestamp, Seq<Message>, Seq<Part>),
            TranscriptFault,
        >(parts_of(part_rows->Ok_0)->Err_0),
        rows.len() == 0 ==> read_outcome(
            Watermark::Timestamp(mark),
            session_id,
            Ok(rows),
            part_rows,
        ) == Ok::<(Timestamp, Seq<Message>, Seq<Part>), TranscriptFault>((mark, seq![], seq![])),
{
    law_messages_stand_for_their_rows(rows);
}

/// The mark behind a batch is the latest time of the old mark and the messages: none of them is
/// later, and it is the time of one of them. It stays where the calendar does not reach that
/// time, or there are no messages.
pub proof fn law_mark_is_the_latest_time(
    old_mark: Timestamp,
    messages: Seq<Message>,
    new_mark: Timestamp,
)
    requires
        mark_moves_to(old_mark, messages, new_mark),
        MIN_MILLIS <= old_mark.millis() <= MAX_MILLIS,
    ensures
        messages.len() == 0 ==> new_mark == old_mark,
        (forall|i: int| 0 <= i < messages.len() ==> (#[trigger] messages[i]).time_updated
            <= MAX_MILLIS) ==> forall|i: int|
            0 <= i < messages.len() ==> (#[trigger] messages[i]).time_updated <= new_mark.millis(),
        new_mark.millis() == old_mark.millis() || exists|i: int|
            0 <= i < messages.len() && (#[trigger] messages[i]).time_updated == new_mark.millis(),
        (exists|i: int|
            0 <= i < messages.len() && (#[trigger] messages[i]).time_updated > MAX_MILLIS)
            ==> new_mark == old_mark,
        new_mark.millis() >= old_mark.millis(),
{
    lemma_latest_bounds(old_mark.millis(), messages);
    let to = latest(old_mark.millis(), messages);
    if messages.len() > 0 && to <= MAX_MILLIS {
        assert(new_mark.millis() == to);
    }
}

} // verus!
