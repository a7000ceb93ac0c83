//! What successive reads of a session give, taken together.
use crate::transcript::{latest, mark_moves_to, Message};
use crate::watermark::{Timestamp, MAX_MILLIS, MIN_MILLIS};
use vstd::prelude::*;

verus! {

/// The messages that changed after a time, in their order.
pub open spec fn changed_after(messages: Seq<Message>, time: int) -> Seq<Message>
    decreases messages.len(),
{
    if messages.len() == 0 {
        seq![]
    } else if messages.last().time_updated > time {
        changed_after(messages.drop_last(), time).push(messages.last())
    } else {
        changed_after(messages.drop_last(), time)
    }
}

/// At most `limit` messages, the first ones.
pub open spec fn at_most(messages: Seq<Message>, limit: nat) -> Seq<Message> {
    if messages.len() <= limit {
        messages
    } else {
        messages.take(limit as int)
    }
}

/// The messages that the database answers a read from `mark` on with; `session` holds those of
/// the session, oldest change first.
pub open spec fn page(session: Seq<Message>, mark: Timestamp, limit: nat) -> Seq<Message> {
    at_most(changed_after(session, mark.millis()), limit)
}

/// The oldest change comes first.
pub open spec fn oldest_first(session: Seq<Message>) -> bool {
    forall|i: int, j: int|
        0 <= i <= j < session.len() ==> (#[trigger] session[i]).time_updated <= (
        #[trigger] session[j]).time_updated
}

/// No message is later than the calendar reaches.
pub open spec fn none_beyond_calendar(session: Seq<Message>) -> bool {
    forall|i: int| 0 <= i < session.len() ==> (#[trigger] session[i]).time_updated <= MAX_MILLIS
}

/// `marks` are those of successive reads: the mark behind each read is where the next one
/// resumes.
pub open spec fn successive_reads(
    session: Seq<Message>,
    limit: nat,
    marks: Seq<Timestamp>,
) -> bool {
    &&& marks.len() > 0
    &&& marks[0].millis() >= MIN_MILLIS
    &&& forall|k: int|
        0 <= k < marks.len() - 1 ==> mark_moves_to(
            #[trigger] marks[k],
            page(session, marks[k], limit),
            marks[k + 1],
        )
}

/// The messages of the first `n` reads, in the order in which they were read.
pub open spec fn read_in(
    session: Seq<Message>,
    limit: nat,
    marks: Seq<Timestamp>,
    n: nat,
) -> Seq<Message>
    decreases n,
{
    if n == 0 {
        seq![]
    } else {
        read_in(session, limit, marks, (n - 1) as nat) + page(session, marks[n - 1], limit)
    }
}

/// The number of messages that `n` full pages hold.
pub open spec fn full_pages(n: nat, limit: nat) -> nat {
    n * limit
}

/// Where one page ends and the next begins, the time changes.
pub open spec fn pages_part_times(messages: Seq<Message>, limit: nat) -> bool {
    forall|n: nat|
        0 < #[trigger] full_pages(n, limit) < messages.len() ==> messages[full_pages(n, limit)
            - 1].time_updated < messages[full_pages(n, limit) as int].time_updated
}

pub(crate) proof fn lemma_latest_bounds(after: int, messages: Seq<Message>)
    ensures
        latest(after, messages) >= after,
        forall|i: int|
            0 <= i < messages.len() ==> (#[trigger] messages[i]).time_updated <= latest(
                after,
                messages,
            ),
        latest(after, messages) == after || exists|i: int|
            0 <= i < messages.len() && (#[trigger] messages[i]).time_updated == latest(
                after,
                messages,
            ),
    decreases messages.len(),
{
    if messages.len() > 0 {
        let init = messages.drop_last();
        lemma_latest_bounds(after, init);
        let l = latest(after, init);
        if messages.last().time_updated > l {
            assert(messages[messages.len() - 1].time_updated == latest(after, messages));
        } else if l != after {
            let i = choose|i: int| 0 <= i < init.len() && (#[trigger] init[i]).time_updated == l;
            assert(messages[i].time_updated == l);
        }
        assert forall|i: int| 0 <= i < messages.len() implies (#[trigger] messages[i]).time_updated
            <= latest(after, messages) by {
            if i < init.len() {
                assert(init[i] == messages[i]);
            }
        }
    }
}

/// A mark never moves back.
pub proof fn law_mark_never_moves_back(
    old_mark: Timestamp,
    messages: Seq<Message>,
    new_mark: Timestamp,
)
    requires
        mark_moves_to(old_mark, messages, new_mark),
    ensures
        new_mark.millis() >= old_mark.millis(),
{
    lemma_latest_bounds(old_mark.millis(), messages);
}

/// Where no message of a batch is later than the calendar reaches, none is later than the mark
/// behind the batch.
pub proof fn law_mark_covers_its_batch(
    old_mark: Timestamp,
    messages: Seq<Message>,
    new_mark: Timestamp,
)
    requires
        mark_moves_to(old_mark, messages, new_mark),
        old_mark.millis() >= MIN_MILLIS,
        none_beyond_calendar(messages),
    ensures
        forall|i: int|
            0 <= i < messages.len() ==> (#[trigger] messages[i]).time_updated <= new_mark.millis(),
        messages.len() > 0 && latest(old_mark.millis(), messages) > old_mark.millis()
            ==> new_mark.millis() == latest(old_mark.millis(), messages),
{
    lemma_latest_bounds(old_mark.millis(), messages);
    let to = latest(old_mark.millis(), messages);
    if messages.len() > 0 && to <= MAX_MILLIS {
        assert(new_mark.millis() == to);
    }
}

proof fn lemma_changed_after_is_later(messages: Seq<Message>, time: int)
    ensures
        forall|i: int|
            0 <= i < changed_after(messages, time).len() ==> (#[trigger] changed_after(
                messages,
                time,
            )[i]).time_updated > time && messages.contains(changed_after(messages, time)[i]),
    decreases messages.len(),
{
    if messages.len() > 0 {
        let init = messages.drop_last();
        lemma_changed_after_is_later(init, time);
        let all = changed_after(messages, time);
        assert forall|i: int| 0 <= i < all.len() implies (#[trigger] all[i]).time_updated > time
            && messages.contains(all[i]) by {
            if i < changed_after(init, time).len() {
                assert(all[i] == changed_after(init, time)[i]);
                let j = choose|j: int| 0 <= j < init.len() && init[j] == all[i];
                assert(messages[j] == all[i]);
            } else {
                assert(messages[messages.len() - 1] == all[i]);
            }
        }
    }
}

/// What a page holds is later than its mark, and belongs to the session.
proof fn lemma_page_is_later(session: Seq<Message>, mark: Timestamp, limit: nat)
    ensures
        forall|i: int|
            0 <= i < page(session, mark, limit).len() ==> (#[trigger] page(
                session,
                mark,
                limit,
            )[i]).time_updated > mark.millis() && session.contains(page(session, mark, limit)[i]),
{
    let all = changed_after(session, mark.millis());
    lemma_changed_after_is_later(session, mark.millis());
    assert forall|i: int| 0 <= i < page(session, mark, limit).len() implies (#[trigger] page(
        session,
        mark,
        limit,
    )[i]).time_updated > mark.millis() && session.contains(page(session, mark, limit)[i]) by {
        assert(page(session, mark, limit)[i] == all[i]);
    }
}

proof fn lemma_marks_rise(session: Seq<Message>, limit: nat, marks: Seq<Timestamp>, a: int, b: int)
    requires
        successive_reads(session, limit, marks),
        0 <= a <= b < marks.len(),
    ensures
        marks[a].millis() <= marks[b].millis(),
        marks[a].millis() >= MIN_MILLIS,
    decreases b,
{
    if a < b {
        lemma_marks_rise(session, limit, marks, a, b - 1);
        law_mark_never_moves_back(
            marks[b - 1],
            page(session, marks[b - 1], limit),
            marks[b - 1 + 1],
        );
    } else if a > 0 {
        lemma_marks_rise(session, limit, marks, 0, b - 1);
        law_mark_never_moves_back(
            marks[b - 1],
            page(session, marks[b - 1], limit),
            marks[b - 1 + 1],
        );
    }
}

/// No read repeats what an earlier one gave: its messages are later than all of those.
pub proof fn law_no_message_is_read_twice(
    session: Seq<Message>,
    limit: nat,
    marks: Seq<Timestamp>,
    a: int,
    b: int,
    i: int,
    j: int,
)
    requires
        successive_reads(session, limit, marks),
        none_beyond_calendar(session),
        0 <= a < b < marks.len(),
        0 <= i < page(session, marks[a], limit).len(),
        0 <= j < page(session, marks[b], limit).len(),
    ensures
        page(session, marks[a], limit)[i].time_updated < page(
            session,
            marks[b],
            limit,
        )[j].time_updated,
{
    let first = page(session, marks[a], limit);
    lemma_page_is_later(session, marks[a], limit);
    lemma_page_is_later(session, marks[b], limit);
    lemma_marks_rise(session, limit, marks, a, a);
    assert forall|k: int| 0 <= k < first.len() implies (#[trigger] first[k]).time_updated
        <= MAX_MILLIS by {
        assert(session.contains(first[k]));
    }
    assert(mark_moves_to(marks[a], first, marks[a + 1]));
    law_mark_covers_its_batch(marks[a], first, marks[a + 1]);
    assert(first[i].time_updated <= marks[a + 1].millis());
    lemma_marks_rise(session, limit, marks, a + 1, b);
}

proof fn lemma_later_ones_are_a_suffix(messages: Seq<Message>, time: int, k: int)
    requires
        0 <= k <= messages.len(),
        forall|i: int| 0 <= i < k ==> (#[trigger] messages[i]).time_updated <= time,
        forall|i: int| k <= i < messages.len() ==> (#[trigger] messages[i]).time_updated > time,
    ensures
        changed_after(messages, time) == messages.skip(k),
    decreases messages.len(),
{
    if messages.len() > 0 {
        let init = messages.drop_last();
        if k < messages.len() {
            lemma_later_ones_are_a_suffix(init, time, k);
            assert(messages[messages.len() - 1].time_updated > time);
            assert(init.skip(k).push(messages.last()) == messages.skip(k));
        } else {
            assert(messages[messages.len() - 1].time_updated <= time);
            lemma_later_ones_are_a_suffix(init, time, k - 1);
            assert(init.skip(k - 1) == messages.skip(k));
        }
    } else {
        assert(messages.skip(k) == Seq::<Message>::empty());
    }
}

proof fn lemma_split_at(messages: Seq<Message>, time: int) -> (k: int)
    requires
        oldest_first(messages),
    ensures
        0 <= k <= messages.len(),
        forall|i: int| 0 <= i < k ==> (#[trigger] messages[i]).time_updated <= time,
        forall|i: int| k <= i < messages.len() ==> (#[trigger] messages[i]).time_updated > time,
    decreases messages.len(),
{
    if messages.len() == 0 {
        0
    } else {
        let init = messages.drop_last();
        assert forall|i: int, j: int| 0 <= i <= j < init.len() implies (
        #[trigger] init[i]).time_updated <= (#[trigger] init[j]).time_updated by {
            assert(init[i] == messages[i] && init[j] == messages[j]);
        }
        let k = lemma_split_at(init, time);
        if messages.last().time_updated > time {
            assert forall|i: int| k <= i < messages.len() implies (
            #[trigger] messages[i]).time_updated > time by {
                if i < init.len() {
                    assert(init[i] == messages[i]);
                }
            }
            assert forall|i: int| 0 <= i < k implies (#[trigger] messages[i]).time_updated
                <= time by {
                assert(init[i] == messages[i]);
            }
            k
        } else {
            assert forall|i: int| 0 <= i < messages.len() implies (
            #[trigger] messages[i]).time_updated <= time by {
                assert(messages[i].time_updated <= messages[messages.len() - 1].time_updated);
            }
            messages.len() as int
        }
    }
}

/// In a page whose oldest change comes first, the last message is the latest.
proof fn lemma_latest_is_last(after: int, messages: Seq<Message>)
    requires
        messages.len() > 0,
        oldest_first(messages),
        messages.last().time_updated > after,
    ensures
        latest(after, messages) == messages.last().time_updated,
{
    lemma_latest_bounds(after, messages);
    let last = messages.len() - 1;
    assert(messages[last].time_updated <= latest(after, messages));
    let i = choose|i: int|
        0 <= i < messages.len() && (#[trigger] messages[i]).time_updated == latest(after, messages);
    assert(messages[i].time_updated <= messages[last].time_updated);
}

/// The smaller of two numbers.
spec fn lesser(a: nat, b: nat) -> nat {
    if a <= b {
        a
    } else {
        b
    }
}

/// Behind the mark of a page comes what follows the page in the session, if the time changes there.
proof fn lemma_mark_ends_its_page(
    session: Seq<Message>,
    from: int,
    to: int,
    mark: Timestamp,
    new_mark: Timestamp,
)
    requires
        oldest_first(session),
        none_beyond_calendar(session),
        0 <= from < to <= session.len(),
        mark.millis() >= MIN_MILLIS,
        session[to - 1].time_updated > mark.millis(),
        mark_moves_to(mark, session.subrange(from, to), new_mark),
        to < session.len() ==> session[to - 1].time_updated < session[to].time_updated,
    ensures
        changed_after(session, new_mark.millis()) == session.skip(to),
{
    let batch = session.subrange(from, to);
    assert(oldest_first(batch));
    assert(none_beyond_calendar(batch));
    lemma_latest_is_last(mark.millis(), batch);
    law_mark_covers_its_batch(mark, batch, new_mark);
    let last = session[to - 1].time_updated as int;
    assert(new_mark.millis() == last);
    assert forall|i: int| to <= i < session.len() implies (#[trigger] session[i]).time_updated
        > last by {
        assert(session[to].time_updated <= session[i].time_updated);
    }
    lemma_later_ones_are_a_suffix(session, last, to);
}

/// A page of what is left carries what has been read on by one page.
proof fn lemma_page_of_the_rest(due: Seq<Message>, n: nat, limit: nat)
    ensures
        ({
            let done = lesser(full_pages(n, limit), due.len()) as int;
            let next = lesser(full_pages(n + 1, limit), due.len()) as int;
            &&& done <= next
            &&& next < due.len() ==> next == full_pages(n + 1, limit)
            &&& at_most(due.skip(done), limit) == due.subrange(done, next)
            &&& due.take(done) + due.subrange(done, next) == due.take(next)
        }),
{
    assert((n + 1) * limit == n * limit + limit) by (nonlinear_arith);
    let done = lesser(full_pages(n, limit), due.len()) as int;
    let next = lesser(full_pages(n + 1, limit), due.len()) as int;
    assert(at_most(due.skip(done), limit) == due.subrange(done, next));
    assert(due.take(done) + due.subrange(done, next) == due.take(next));
}

/// One page further on: behind the new mark comes what is due behind the page.
#[verifier::spinoff_prover]
proof fn lemma_rest_behind_a_page(
    session: Seq<Message>,
    first: Timestamp,
    mark: Timestamp,
    new_mark: Timestamp,
    limit: nat,
    done: int,
    next: int,
)
    requires
        oldest_first(session),
        none_beyond_calendar(session),
        mark.millis() >= MIN_MILLIS,
        0 <= done < next <= changed_after(session, first.millis()).len(),
        page(session, mark, limit) == changed_after(session, first.millis()).subrange(done, next),
        mark_moves_to(mark, page(session, mark, limit), new_mark),
        next < changed_after(session, first.millis()).len() ==> changed_after(
            session,
            first.millis(),
        )[next - 1].time_updated < changed_after(session, first.millis())[next].time_updated,
    ensures
        changed_after(session, new_mark.millis()) == changed_after(session, first.millis()).skip(
            next,
        ),
{
    let due = changed_after(session, first.millis());
    let batch = due.subrange(done, next);
    let k = lemma_split_at(session, first.millis());
    lemma_later_ones_are_a_suffix(session, first.millis(), k);
    assert(batch == session.subrange(k + done, k + next));
    assert(session[k + next - 1].time_updated > mark.millis()) by {
        lemma_page_is_later(session, mark, limit);
        assert(batch[next - done - 1] == session[k + next - 1]);
    }
    if k + next < session.len() {
        assert(due[next - 1] == session[k + next - 1]);
        assert(due[next] == session[k + next]);
    }
    lemma_mark_ends_its_page(session, k + done, k + next, mark, new_mark);
    assert(session.skip(k + next) == due.skip(next));
}

/// Where a page ends before the last message, the time changes.
proof fn lemma_time_changes_at_a_page_end(messages: Seq<Message>, limit: nat, n: nat)
    requires
        pages_part_times(messages, limit),
        0 < full_pages(n, limit) < messages.len(),
    ensures
        messages[full_pages(n, limit) - 1].time_updated < messages[full_pages(
            n,
            limit,
        ) as int].time_updated,
{
}

#[verifier::spinoff_prover]
proof fn lemma_reads(session: Seq<Message>, limit: nat, marks: Seq<Timestamp>, n: nat)
    requires
        successive_reads(session, limit, marks),
        oldest_first(session),
        none_beyond_calendar(session),
        pages_part_times(changed_after(session, marks[0].millis()), limit),
        n < marks.len(),
    ensures
        ({
            let due = changed_after(session, marks[0].millis());
            let done = lesser(full_pages(n, limit), due.len());
            &&& read_in(session, limit, marks, n) == due.take(done as int)
            &&& changed_after(session, marks[n as int].millis()) == due.skip(done as int)
        }),
    decreases n,
{
    let due = changed_after(session, marks[0].millis());
    if n == 0 {
        assert(full_pages(0, limit) == 0) by (nonlinear_arith);
        assert(due.take(0) == Seq::<Message>::empty());
        assert(due.skip(0) == due);
    } else {
        let m = (n - 1) as nat;
        lemma_reads(session, limit, marks, m);
        lemma_page_of_the_rest(due, m, limit);
        let done = lesser(full_pages(m, limit), due.len()) as int;
        let next = lesser(full_pages(n, limit), due.len()) as int;
        let mark = marks[m as int];
        assert(page(session, mark, limit) == due.subrange(done, next));
        assert(mark_moves_to(mark, page(session, mark, limit), marks[m as int + 1]));
        if done < next {
            lemma_marks_rise(session, limit, marks, m as int, m as int);
            if next < due.len() {
                lemma_time_changes_at_a_page_end(due, limit, n);
            }
            lemma_rest_behind_a_page(
                session,
                marks[0],
                mark,
                marks[n as int],
                limit,
                done,
                next,
            );
        }
    }
}

/// A read takes in no more messages than its limit.
pub proof fn law_page_is_within_its_limit(session: Seq<Message>, mark: Timestamp, limit: nat)
    ensures
        page(session, mark, limit).len() <= limit,
{
}

/// Successive reads give every message that changed after the first mark, in order and once: so
/// many of them as the pages hold. This is so wherever no message is later than the calendar
/// reaches, and no two messages of one time are parted by the end of a page.
pub proof fn law_reads_lose_nothing(
    session: Seq<Message>,
    limit: nat,
    marks: Seq<Timestamp>,
    n: nat,
)
    requires
        successive_reads(session, limit, marks),
        oldest_first(session),
        none_beyond_calendar(session),
        pages_part_times(changed_after(session, marks[0].millis()), limit),
        n < marks.len(),
    ensures
        read_in(session, limit, marks, n) == at_most(
            changed_after(session, marks[0].millis()),
            full_pages(n, limit),
        ),
{
    lemma_reads(session, limit, marks, n);
    let due = changed_after(session, marks[0].millis());
    assert(due.take(due.len() as int) == due);
}

/// As many reads as there are messages read them all, and the next read finds none.
pub proof fn law_reads_end_with_nothing_left(
    session: Seq<Message>,
    limit: nat,
    marks: Seq<Timestamp>,
    n: nat,
)
    requires
        successive_reads(session, limit, marks),
        oldest_first(session),
        none_beyond_calendar(session),
        pages_part_times(changed_after(session, marks[0].millis()), limit),
        limit > 0,
        n < marks.len(),
        n >= changed_after(session, marks[0].millis()).len(),
    ensures
        read_in(session, limit, marks, n) == changed_after(session, marks[0].millis()),
        page(session, marks[n as int], limit) == Seq::<Message>::empty(),
{
    lemma_reads(session, limit, marks, n);
    let due = changed_after(session, marks[0].millis());
    assert(n * limit >= n) by (nonlinear_arith)
        requires
            limit > 0,
    ;
    assert(due.take(due.len() as int) == due);
    assert(due.skip(due.len() as int) == Seq::<Message>::empty());
}

/// After a mark behind which nothing is left, a read gives what has been added since, and that
/// alone.
pub proof fn law_read_after_the_end_gives_what_was_added(
    session: Seq<Message>,
    added: Seq<Message>,
    mark: Timestamp,
    limit: nat,
)
    requires
        changed_after(session, mark.millis()).len() == 0,
    ensures
        page(session + added, mark, limit) == page(added, mark, limit),
{
    lemma_changed_after_concat(session, added, mark.millis());
    assert(changed_after(session, mark.millis()) + changed_after(added, mark.millis())
        == changed_after(added, mark.millis()));
}

proof fn lemma_changed_after_concat(a: Seq<Message>, b: Seq<Message>, time: int)
    ensures
        changed_after(a + b, time) == changed_after(a, time) + changed_after(b, time),
    decreases b.len(),
{
    if b.len() == 0 {
        assert(a + b == a);
        assert(changed_after(a, time) + changed_after(b, time) == changed_after(a, time));
    } else {
        lemma_changed_after_concat(a, b.drop_last(), time);
        assert((a + b).drop_last() == a + b.drop_last());
        assert((a + b).last() == b.last());
        assert(changed_after(a, time) + changed_after(b.drop_last(), time).push(b.last()) == (
        changed_after(a, time) + changed_after(b.drop_last(), time)).push(b.last()));
    }
}

/// What changed after a time is every message with a later one, in order.
pub proof fn law_changed_after_is_every_later_message(messages: Seq<Message>, time: int)
    ensures
        changed_after(messages, time) == messages.filter(|m: Message| m.time_updated > time),
    decreases messages.len(),
{
    reveal(Seq::filter);
    if messages.len() > 0 {
        law_changed_after_is_every_later_message(messages.drop_last(), time);
    }
}

/// A page is the front of what changed after its mark: all of it, or as much as its limit.
pub proof fn law_page_is_the_front_of_what_changed(
    session: Seq<Message>,
    mark: Timestamp,
    limit: nat,
)
    ensures
        page(session, mark, limit).is_prefix_of(changed_after(session, mark.millis())),
        page(session, mark, limit).len() == limit || page(session, mark, limit) == changed_after(
            session,
            mark.millis(),
        ),
{
    let all = changed_after(session, mark.millis());
    let p = page(session, mark, limit);
    assert(all.subrange(0, p.len() as int) == p);
}

} // verus!
