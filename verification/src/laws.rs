//! Properties of the queue that relate its operations to each other, and of the
//! access-token rule.
use vstd::prelude::*;

use crate::cookie::{find, marker, occurs_at, second_piece};
use crate::links::{lemma_distinct_bounded, lemma_remove_distinct};
use crate::text::decimal;
use crate::protocol::{
    Effect, OutType, get_queue_step, listing, help_step, join_step, leave_step, msg, notices, poll_step,
    remove_step, student_step, ta_step,
};
use crate::queue::{
    QueueView, Seat, StandingView, SLOTS, entries, distinct, index_of, moved_up,
    seated_in, standing_of,
};

verus! {

/// In a list of distinct tables, the place of a table that occurs at `i` is `i`.
pub proof fn lemma_index_of_unique(list: Seq<Seat>, i: int)
    requires
        distinct(list),
        0 <= i < list.len(),
    ensures
        seated_in(list, list[i].table),
        index_of(list, list[i].table) == i,
{
    assert(list[i] == list[i]);
}

/// Appending a table that is not yet in a list of distinct tables keeps them distinct,
/// and adds just that table.
pub proof fn lemma_push_seated(list: Seq<Seat>, seat: Seat)
    requires
        distinct(list),
        !seated_in(list, seat.table),
    ensures
        distinct(list.push(seat)),
        forall|u: u32| #[trigger]
            seated_in(list.push(seat), u) <==> (seated_in(list, u) || u == seat.table),
        index_of(list.push(seat), seat.table) == list.len(),
{
    let l2 = list.push(seat);
    assert forall|a: int, b: int|
        0 <= a < l2.len() && 0 <= b < l2.len() && a != b implies l2[a].table != l2[b].table by {
        if a < list.len() {
            assert(l2[a] == list[a]);
        }
        if b < list.len() {
            assert(l2[b] == list[b]);
        }
    }
    assert forall|u: u32| #[trigger]
        seated_in(l2, u) <==> (seated_in(list, u) || u == seat.table) by {
        if seated_in(l2, u) {
            let i = index_of(l2, u);
            if i < list.len() {
                assert(l2[i] == list[i]);
            }
        }
        if seated_in(list, u) {
            let i = index_of(list, u);
            assert(l2[i] == list[i]);
        }
        if u == seat.table {
            assert(l2[list.len() as int] == seat);
        }
    }
    lemma_index_of_unique(l2, list.len() as int);
}

/// Taking place `p` out of a list of distinct tables keeps them distinct, and takes out
/// just that table.
pub proof fn lemma_remove_seated(list: Seq<Seat>, p: int)
    requires
        distinct(list),
        0 <= p < list.len(),
    ensures
        distinct(list.remove(p)),
        forall|u: u32| #[trigger]
            seated_in(list.remove(p), u) <==> (seated_in(list, u) && u != list[p].table),
{
    lemma_remove_distinct(list, p);
    let l2 = list.remove(p);
    assert forall|u: u32| #[trigger]
        seated_in(l2, u) <==> (seated_in(list, u) && u != list[p].table) by {
        if seated_in(l2, u) {
            let i = index_of(l2, u);
            let j = if i < p { i } else { i + 1 };
            assert(l2[i] == list[j]);
        }
        if seated_in(list, u) && u != list[p].table {
            let j = index_of(list, u);
            assert(list[j] == list[j]);
            if j < p {
                assert(l2[j] == list[j]);
            } else {
                assert(l2[j - 1] == list[j]);
            }
        }
    }
}

/// A table in one list of a valid queue is not in the other.
pub proof fn lemma_one_list(q: QueueView, table: u32)
    requires
        q.sound(),
    ensures
        !(seated_in(q.waiting, table) && seated_in(q.helped, table)),
{
    if seated_in(q.waiting, table) && seated_in(q.helped, table) {
        let i = index_of(q.waiting, table);
        let j = index_of(q.helped, table);
        assert(q.waiting[i] == q.waiting[i]);
        assert(q.helped[j] == q.helped[j]);
    }
}

/// Every waiting student's place is their position in line, counted from one: the
/// places of a line of `n` students are exactly 1 to `n`.
pub proof fn law_places_are_consecutive(q: QueueView, i: int)
    requires
        q.valid(),
        0 <= i < q.waiting.len(),
    ensures
        standing_of(q, q.waiting[i].table) == StandingView::Waiting((i + 1) as nat),
{
    lemma_index_of_unique(q.waiting, i);
}

/// A student who joins the queue is then waiting, last in line.
pub proof fn law_join_then_poll(q: QueueView, table: u32, task: Seq<char>)
    requires
        q.valid(),
        !q.seated(table),
    ensures
        standing_of(q.joined(table, task), table) == StandingView::Waiting(
            (q.waiting.len() + 1) as nat,
        ),
{
    lemma_push_seated(q.waiting, Seat { table, text: task });
}

/// Joining and then leaving the queue leaves it as it was.
pub proof fn law_join_then_remove(q: QueueView, table: u32, task: Seq<char>)
    requires
        q.valid(),
        !q.seated(table),
    ensures
        q.joined(table, task).without(table) == q,
{
    let w2 = q.joined(table, task).waiting;
    lemma_push_seated(q.waiting, Seat { table, text: task });
    assert(w2.remove(q.waiting.len() as int) =~= q.waiting);
}

/// A student that an assistant starts helping is then being helped by that assistant.
pub proof fn law_help_then_poll(q: QueueView, table: u32, name: Seq<char>)
    requires
        q.valid(),
        seated_in(q.waiting, table),
    ensures
        standing_of(q.helping(table, name), table) == StandingView::Helped(name),
{
    let p = index_of(q.waiting, table);
    assert(q.waiting[p] == q.waiting[p]);
    lemma_remove_seated(q.waiting, p);
    lemma_one_list(q, table);
    lemma_push_seated(q.helped, Seat { table, text: name });
}

/// A student who leaves the queue, or is taken out of it, is then not in it.
pub proof fn law_remove_then_poll(q: QueueView, table: u32)
    requires
        q.valid(),
    ensures
        standing_of(q.without(table), table) == StandingView::Absent,
{
    lemma_one_list(q, table);
    if seated_in(q.waiting, table) {
        let p = index_of(q.waiting, table);
        assert(q.waiting[p] == q.waiting[p]);
        lemma_remove_seated(q.waiting, p);
    } else if seated_in(q.helped, table) {
        let p = index_of(q.helped, table);
        assert(q.helped[p] == q.helped[p]);
        lemma_remove_seated(q.helped, p);
    }
}

/// When the waiting student at `table` leaves the line, whether to be helped or taken
/// out, the place that each student behind them is told is the place that a poll then
/// gives; and every student ahead of them keeps their place.
pub proof fn law_moved_up_places(q: QueueView, table: u32, name: Seq<char>, u: u32)
    requires
        q.valid(),
        seated_in(q.waiting, table),
    ensures
        forall|k: int|
            #![trigger moved_up(q.waiting, index_of(q.waiting, table))[k]]
            0 <= k < moved_up(q.waiting, index_of(q.waiting, table)).len() ==> {
                let m = moved_up(q.waiting, index_of(q.waiting, table))[k];
                &&& standing_of(q.without(table), m.0) == StandingView::Waiting(m.1 as nat)
                &&& standing_of(q.helping(table, name), m.0) == StandingView::Waiting(
                    m.1 as nat,
                )
                &&& standing_of(q, m.0) == StandingView::Waiting((m.1 + 1) as nat)
            },
        seated_in(q.waiting, u) && index_of(q.waiting, u) < index_of(q.waiting, table) ==> {
            &&& standing_of(q.without(table), u) == standing_of(q, u)
            &&& standing_of(q.helping(table, name), u) == standing_of(q, u)
        },
{
    let w = q.waiting;
    let p = index_of(w, table);
    assert(w[p] == w[p]);
    let w2 = w.remove(p);
    lemma_remove_seated(w, p);
    lemma_distinct_bounded(w, SLOTS as nat);
    let mv = moved_up(w, p);
    assert forall|k: int| #![trigger mv[k]] 0 <= k < mv.len() implies {
        let m = mv[k];
        &&& standing_of(q.without(table), m.0) == StandingView::Waiting(m.1 as nat)
        &&& standing_of(q.helping(table, name), m.0) == StandingView::Waiting(m.1 as nat)
        &&& standing_of(q, m.0) == StandingView::Waiting((m.1 + 1) as nat)
    } by {
        assert(w2[p + k] == w[p + 1 + k]);
        lemma_index_of_unique(w2, p + k);
        lemma_index_of_unique(w, p + 1 + k);
    }
    if seated_in(w, u) && index_of(w, u) < p {
        let i = index_of(w, u);
        assert(w[i] == w[i]);
        assert(w2[i] == w[i]);
        lemma_index_of_unique(w2, i);
        lemma_index_of_unique(w, i);
    }
}

/// Taking out a student who is being helped leaves the queue as taking them out of the
/// line would have, before help began.
pub proof fn law_help_then_remove(q: QueueView, table: u32, name: Seq<char>)
    requires
        q.valid(),
        seated_in(q.waiting, table),
    ensures
        q.helping(table, name).without(table) == q.without(table),
{
    let p = index_of(q.waiting, table);
    assert(q.waiting[p] == q.waiting[p]);
    lemma_remove_seated(q.waiting, p);
    lemma_one_list(q, table);
    lemma_push_seated(q.helped, Seat { table, text: name });
    assert(q.helping(table, name).helped.remove(q.helped.len() as int) =~= q.helped);
}

/// A request that the queue refuses leaves it as it was: joining when already in it,
/// being helped when not waiting, being removed when not in it.
pub proof fn law_refusals_change_nothing(q: QueueView, table: u32, task: Seq<char>, name: Seq<char>)
    ensures
        q.seated(table) ==> join_step(q, table, task).0 == q,
        !seated_in(q.waiting, table) ==> help_step(q, table, name).0 == q,
        !q.seated(table) ==> remove_step(q, table).0 == q,
{
}

/// The listing has one line for each student in the queue.
pub proof fn law_listing_counts_everyone(q: QueueView)
    ensures
        entries(q).len() == q.helped.len() + q.waiting.len(),
{
}

/// The place that a student who joins is told is what a poll then answers.
pub proof fn law_join_reply_is_poll_reply(q: QueueView, table: u32, task: Seq<char>)
    requires
        q.valid(),
        !q.seated(table),
    ensures
        poll_step(join_step(q, table, task).0, table) == seq![join_step(q, table, task).1[0]],
{
    law_join_then_poll(q, table, task);
}

/// What the student who starts getting help is told is what a poll then answers, and
/// what each student who moved up is told is what a poll then answers them.
pub proof fn law_help_notices_are_poll_replies(q: QueueView, table: u32, name: Seq<char>)
    requires
        q.valid(),
        seated_in(q.waiting, table),
    ensures
        help_step(q, table, name).1.last() == Effect::Notify(
            table,
            msg(OutType::Helping, "Getting help from "@ + name),
        ),
        poll_step(help_step(q, table, name).0, table) == seq![
            Effect::Reply(msg(OutType::Helping, "Getting help from "@ + name)),
        ],
        forall|k: int|
            #![trigger notices(moved_up(q.waiting, index_of(q.waiting, table)))[k]]
            0 <= k < moved_up(q.waiting, index_of(q.waiting, table)).len() ==> {
                let m = moved_up(q.waiting, index_of(q.waiting, table))[k];
                &&& notices(moved_up(q.waiting, index_of(q.waiting, table)))[k]
                    == Effect::Notify(m.0, msg(OutType::Index, decimal(m.1 as nat)))
                &&& poll_step(help_step(q, table, name).0, m.0) == seq![
                    Effect::Reply(msg(OutType::Index, decimal(m.1 as nat))),
                ]
            },
{
    let p = index_of(q.waiting, table);
    law_help_then_poll(q, table, name);
    law_moved_up_places(q, table, name, table);
    let mv = moved_up(q.waiting, p);
    assert forall|k: int| #![trigger notices(mv)[k]] 0 <= k < mv.len() implies {
        let m = mv[k];
        &&& notices(mv)[k] == Effect::Notify(
            m.0,
            msg(OutType::Index, decimal(m.1 as nat)),
        )
        &&& poll_step(help_step(q, table, name).0, m.0) == seq![
            Effect::Reply(msg(OutType::Index, decimal(m.1 as nat))),
        ]
    } by {
        assert(mv[k] == mv[k]);
    }
}

/// A student taken out of the queue is told what a poll then answers them, and their
/// connection closes as it would on that poll.
pub proof fn law_remove_notice_is_poll_reply(q: QueueView, table: u32)
    requires
        q.valid(),
        q.seated(table),
    ensures
        remove_step(q, table).1.contains(
            Effect::Notify(table, msg(OutType::NotQueue, "Not in queue"@)),
        ),
        poll_step(remove_step(q, table).0, table) == seq![
            Effect::Reply(msg(OutType::NotQueue, "Not in queue"@)),
            Effect::DisconnectSelf,
        ],
{
    law_remove_then_poll(q, table);
    let effs = remove_step(q, table).1;
    let moved = if seated_in(q.waiting, table) {
        moved_up(q.waiting, index_of(q.waiting, table))
    } else {
        Seq::empty()
    };
    let n = notices(moved).len();
    assert(effs[n + 1int] == Effect::Notify(table, msg(OutType::NotQueue, "Not in queue"@)));
}

/// Whether a table's student waits, is being helped, or is not in the queue.
pub enum TableStatus {
    Absent,
    Waiting,
    Helped,
}

/// The status of the table `table` in `q`.
pub open spec fn status(q: QueueView, table: u32) -> TableStatus {
    if seated_in(q.waiting, table) {
        TableStatus::Waiting
    } else if seated_in(q.helped, table) {
        TableStatus::Helped
    } else {
        TableStatus::Absent
    }
}

/// The moves that a table's status may make in one step: none, from absent to waiting,
/// from waiting to being helped, or out of the queue.
pub open spec fn allowed_move(before: TableStatus, after: TableStatus) -> bool {
    ||| before == after
    ||| before is Absent && after is Waiting
    ||| before is Waiting && after is Helped
    ||| after is Absent
}

/// A join puts an absent student in the line and changes no other status.
pub proof fn law_status_join(q: QueueView, table: u32, task: Seq<char>, u: u32)
    requires
        q.sound(),
    ensures
        status(join_step(q, table, task).0, u) == if u == table && status(q, u) is Absent {
            TableStatus::Waiting
        } else {
            status(q, u)
        },
{
    if !q.seated(table) {
        lemma_push_seated(q.waiting, Seat { table, text: task });
    }
}

/// Help moves a waiting student to those being helped and changes no other status.
pub proof fn law_status_help(q: QueueView, table: u32, name: Seq<char>, u: u32)
    requires
        q.sound(),
    ensures
        status(help_step(q, table, name).0, u) == if u == table && status(q, u) is Waiting {
            TableStatus::Helped
        } else {
            status(q, u)
        },
{
    lemma_one_list(q, table);
    lemma_one_list(q, u);
    if !seated_in(q.helped, table) && seated_in(q.waiting, table) {
        let p = index_of(q.waiting, table);
        assert(q.waiting[p] == q.waiting[p]);
        lemma_remove_seated(q.waiting, p);
        lemma_push_seated(q.helped, Seat { table, text: name });
    }
}

/// Taking a student out, by an assistant or on their own, makes them absent and changes
/// no other status.
pub proof fn law_status_remove(q: QueueView, table: u32, u: u32)
    requires
        q.sound(),
    ensures
        status(remove_step(q, table).0, u) == if u == table {
            TableStatus::Absent
        } else {
            status(q, u)
        },
        leave_step(q, table).0 == remove_step(q, table).0,
{
    lemma_one_list(q, table);
    lemma_one_list(q, u);
    if seated_in(q.waiting, table) {
        let p = index_of(q.waiting, table);
        assert(q.waiting[p] == q.waiting[p]);
        lemma_remove_seated(q.waiting, p);
    } else if seated_in(q.helped, table) {
        let p = index_of(q.helped, table);
        assert(q.helped[p] == q.helped[p]);
        lemma_remove_seated(q.helped, p);
    }
}

/// Every command, of a student or of an assistant, moves each table's status only as
/// `allowed_move` allows: no student goes from absent to helped, or from helped back to
/// waiting, and polls and listings change nothing.
pub proof fn law_status_moves(
    q: QueueView,
    u: u32,
    table: u32,
    task: Seq<char>,
    name: Seq<char>,
    command: Option<Seq<char>>,
    argument: u8,
)
    requires
        q.sound(),
    ensures
        allowed_move(status(q, u), status(student_step(q, table, task, command).0, u)),
        allowed_move(status(q, u), status(ta_step(q, name, command, argument).0, u)),
{
    law_status_join(q, table, task, u);
    law_status_remove(q, table, u);
    law_status_help(q, argument as u32, name, u);
    law_status_remove(q, argument as u32, u);
}

/// A join keeps every table at most once in the queue.
pub proof fn law_join_keeps_sound(q: QueueView, table: u32, task: Seq<char>)
    requires
        q.sound(),
    ensures
        join_step(q, table, task).0.sound(),
{
    if !q.seated(table) {
        let seat = Seat { table, text: task };
        lemma_push_seated(q.waiting, seat);
        let w2 = q.waiting.push(seat);
        assert forall|i: int, j: int|
            0 <= i < w2.len() && 0 <= j < q.helped.len() implies w2[i].table
            != q.helped[j].table by {
            if i < q.waiting.len() {
                assert(w2[i] == q.waiting[i]);
            } else {
                assert(q.helped[j] == q.helped[j]);
            }
        }
    }
}

/// A join of a student at a table of the room keeps the queue valid.
pub proof fn law_join_keeps_valid(q: QueueView, table: u32, task: Seq<char>)
    requires
        q.valid(),
        table < SLOTS,
    ensures
        join_step(q, table, task).0.valid(),
{
    law_join_keeps_sound(q, table, task);
    if !q.seated(table) {
        let w2 = q.waiting.push(Seat { table, text: task });
        assert forall|i: int| 0 <= i < w2.len() implies w2[i].table < SLOTS by {
            if i < q.waiting.len() {
                assert(w2[i] == q.waiting[i]);
            }
        }
    }
}

/// Help keeps every table at most once in the queue.
pub proof fn law_help_keeps_sound(q: QueueView, table: u32, name: Seq<char>)
    requires
        q.sound(),
    ensures
        help_step(q, table, name).0.sound(),
{
    if !seated_in(q.helped, table) && seated_in(q.waiting, table) {
        let p = index_of(q.waiting, table);
        let w = q.waiting;
        assert(w[p] == w[p]);
        lemma_remove_seated(w, p);
        let seat = Seat { table, text: name };
        lemma_push_seated(q.helped, seat);
        let w2 = w.remove(p);
        let h2 = q.helped.push(seat);
        assert forall|i: int, j: int|
            0 <= i < w2.len() && 0 <= j < h2.len() implies w2[i].table != h2[j].table by {
            let k = if i < p { i } else { i + 1 };
            assert(w2[i] == w[k]);
            if j < q.helped.len() {
                assert(h2[j] == q.helped[j]);
            } else {
                assert(k != p);
                assert(h2[j] == seat);
            }
        }
    }
}

/// Help keeps the queue valid.
pub proof fn law_help_keeps_valid(q: QueueView, table: u32, name: Seq<char>)
    requires
        q.valid(),
    ensures
        help_step(q, table, name).0.valid(),
{
    law_help_keeps_sound(q, table, name);
    if !seated_in(q.helped, table) && seated_in(q.waiting, table) {
        let p = index_of(q.waiting, table);
        let w = q.waiting;
        assert(w[p] == w[p]);
        let w2 = w.remove(p);
        let h2 = q.helped.push(Seat { table, text: name });
        assert forall|i: int| 0 <= i < w2.len() implies w2[i].table < SLOTS by {
            let j = if i < p { i } else { i + 1 };
            assert(w2[i] == w[j]);
        }
        assert forall|i: int| 0 <= i < h2.len() implies h2[i].table < SLOTS by {
            if i < q.helped.len() {
                assert(h2[i] == q.helped[i]);
            }
        }
    }
}

/// Taking a student out keeps every table at most once in the queue.
pub proof fn law_remove_keeps_sound(q: QueueView, table: u32)
    requires
        q.sound(),
    ensures
        remove_step(q, table).0.sound(),
{
    if seated_in(q.waiting, table) {
        let p = index_of(q.waiting, table);
        let w = q.waiting;
        lemma_remove_seated(w, p);
        let w2 = w.remove(p);
        assert forall|i: int, j: int|
            0 <= i < w2.len() && 0 <= j < q.helped.len() implies w2[i].table
            != q.helped[j].table by {
            let k = if i < p { i } else { i + 1 };
            assert(w2[i] == w[k]);
        }
    } else if seated_in(q.helped, table) {
        let p = index_of(q.helped, table);
        let h = q.helped;
        lemma_remove_seated(h, p);
        let h2 = h.remove(p);
        assert forall|i: int, j: int|
            0 <= i < q.waiting.len() && 0 <= j < h2.len() implies q.waiting[i].table
            != h2[j].table by {
            let k = if j < p { j } else { j + 1 };
            assert(h2[j] == h[k]);
        }
    }
}

/// Taking a student out keeps the queue valid.
pub proof fn law_remove_keeps_valid(q: QueueView, table: u32)
    requires
        q.valid(),
    ensures
        remove_step(q, table).0.valid(),
{
    law_remove_keeps_sound(q, table);
    if seated_in(q.waiting, table) {
        let p = index_of(q.waiting, table);
        let w = q.waiting;
        let w2 = w.remove(p);
        assert forall|i: int| 0 <= i < w2.len() implies w2[i].table < SLOTS by {
            let j = if i < p { i } else { i + 1 };
            assert(w2[i] == w[j]);
        }
    } else if seated_in(q.helped, table) {
        let p = index_of(q.helped, table);
        let h = q.helped;
        let h2 = h.remove(p);
        assert forall|i: int| 0 <= i < h2.len() implies h2[i].table < SLOTS by {
            let j = if i < p { i } else { i + 1 };
            assert(h2[i] == h[j]);
        }
    }
}

/// A student's poll changes nothing: the queue stays as it was, and the only actions are
/// one reply and, for a student not in the queue, the closing of their own connection.
/// An assistant's request for the listing likewise changes nothing and only replies.
pub proof fn law_poll_changes_nothing(q: QueueView, table: u32, task: Seq<char>, name: Seq<char>, argument: u8)
    ensures
        student_step(q, table, task, Some("poll"@)).0 == q,
        student_step(q, table, task, Some("poll"@)).1 == poll_step(q, table),
        poll_step(q, table).len() == (if status(q, table) is Absent {
            2int
        } else {
            1int
        }),
        poll_step(q, table)[0] is Reply,
        status(q, table) is Absent ==> poll_step(q, table)[1] is DisconnectSelf,
        ta_step(q, name, Some("get_queue"@), argument).0 == q,
        ta_step(q, name, Some("get_queue"@), argument).1 == get_queue_step(q),
        get_queue_step(q).len() == 1 && get_queue_step(q)[0] is Reply,
{
    reveal_strlit("poll");
    reveal_strlit("join");
    reveal_strlit("leave");
    reveal_strlit("help");
    reveal_strlit("remove");
    reveal_strlit("get_queue");
    assert("poll"@[0] != "join"@[0]);
    assert("get_queue"@[0] != "help"@[0]);
    assert("get_queue"@[0] != "remove"@[0]);
}

/// A command to the server: from the student at a table with their task, or from the
/// assistant of a name, with the command it holds (none where it does not parse) and,
/// for an assistant, its table argument.
pub enum Command {
    Student(u32, Seq<char>, Option<Seq<char>>),
    Assistant(Seq<char>, Option<Seq<char>>, u8),
}

/// The queue after one command.
pub open spec fn apply(q: QueueView, c: Command) -> QueueView {
    match c {
        Command::Student(table, task, command) => student_step(q, table, task, command).0,
        Command::Assistant(name, command, argument) => ta_step(q, name, command, argument).0,
    }
}

/// The queue after the commands, in order.
pub open spec fn run(q: QueueView, cs: Seq<Command>) -> QueueView
    decreases cs.len(),
{
    if cs.len() == 0 {
        q
    } else {
        apply(run(q, cs.drop_last()), cs.last())
    }
}

/// A command that the server can be given: a student's comes from a table of the room.
pub open spec fn from_room(c: Command) -> bool {
    match c {
        Command::Student(table, _, _) => table < SLOTS,
        Command::Assistant(_, _, _) => true,
    }
}

/// Every command keeps every table at most once in the queue.
pub proof fn law_apply_keeps_sound(q: QueueView, c: Command)
    requires
        q.sound(),
    ensures
        apply(q, c).sound(),
{
    match c {
        Command::Student(table, task, command) => {
            law_join_keeps_sound(q, table, task);
            law_remove_keeps_sound(q, table);
        },
        Command::Assistant(name, command, argument) => {
            law_help_keeps_sound(q, argument as u32, name);
            law_remove_keeps_sound(q, argument as u32);
        },
    }
}

/// Any run of commands keeps every table at most once in the queue.
pub proof fn law_run_keeps_sound(q: QueueView, cs: Seq<Command>)
    requires
        q.sound(),
    ensures
        run(q, cs).sound(),
    decreases cs.len(),
{
    if cs.len() > 0 {
        law_run_keeps_sound(q, cs.drop_last());
        law_apply_keeps_sound(run(q, cs.drop_last()), cs.last());
    }
}

/// Every command keeps the queue valid.
pub proof fn law_apply_keeps_valid(q: QueueView, c: Command)
    requires
        q.valid(),
        from_room(c),
    ensures
        apply(q, c).valid(),
{
    match c {
        Command::Student(table, task, command) => {
            law_join_keeps_valid(q, table, task);
            law_remove_keeps_valid(q, table);
        },
        Command::Assistant(name, command, argument) => {
            law_help_keeps_valid(q, argument as u32, name);
            law_remove_keeps_valid(q, argument as u32);
        },
    }
}

/// Any run of commands keeps the queue valid.
pub proof fn law_run_keeps_valid(q: QueueView, cs: Seq<Command>)
    requires
        q.valid(),
        forall|i: int| 0 <= i < cs.len() ==> from_room(#[trigger] cs[i]),
    ensures
        run(q, cs).valid(),
    decreases cs.len(),
{
    if cs.len() > 0 {
        law_run_keeps_valid(q, cs.drop_last());
        assert(from_room(cs[cs.len() - 1]));
        law_apply_keeps_valid(run(q, cs.drop_last()), cs.last());
    }
}

/// Along any run of commands, each step moves each table's status only as
/// `allowed_move` allows.
pub proof fn law_status_along_run(q: QueueView, cs: Seq<Command>, u: u32, i: int)
    requires
        q.sound(),
        0 <= i < cs.len(),
    ensures
        allowed_move(status(run(q, cs.take(i)), u), status(run(q, cs.take(i + 1)), u)),
{
    let before = cs.take(i);
    law_run_keeps_sound(q, before);
    let after = cs.take(i + 1);
    assert(after.drop_last() =~= before);
    assert(after.last() == cs[i]);
    let r = run(q, before);
    match cs[i] {
        Command::Student(table, task, command) => {
            law_status_moves(r, u, table, task, Seq::empty(), command, 0);
        },
        Command::Assistant(name, command, argument) => {
            law_status_moves(r, u, 0, Seq::empty(), name, command, argument);
        },
    }
}

/// Every listing that a step sends to the assistants is the listing of the queue after
/// the step.
pub open spec fn broadcasts_show(effs: Seq<Effect>, q: QueueView) -> bool {
    forall|i: int| 0 <= i < effs.len() && (#[trigger] effs[i]) is Broadcast ==> effs[i] == listing(q)
}

/// Notices to students who moved up are no listings.
proof fn lemma_notices_are_not_listings(moved: Seq<(u32, u32)>)
    ensures
        forall|i: int| 0 <= i < notices(moved).len() ==> (#[trigger] notices(moved)[i]) is Notify,
{
}

/// An accepted join sends every assistant the listing of the queue with the newcomer,
/// and no other listing.
pub proof fn law_join_broadcasts_new_listing(q: QueueView, table: u32, task: Seq<char>)
    ensures
        broadcasts_show(join_step(q, table, task).1, join_step(q, table, task).0),
        !q.seated(table) ==> join_step(q, table, task).1.contains(
            listing(join_step(q, table, task).0),
        ),
{
    let effs = join_step(q, table, task).1;
    if !q.seated(table) {
        assert(effs[1] == listing(join_step(q, table, task).0));
    }
}

/// A help that goes ahead sends every assistant the listing of the queue after it, and
/// no other listing.
pub proof fn law_help_broadcasts_new_listing(q: QueueView, table: u32, name: Seq<char>)
    ensures
        broadcasts_show(help_step(q, table, name).1, help_step(q, table, name).0),
        !seated_in(q.helped, table) && seated_in(q.waiting, table) ==> help_step(
            q,
            table,
            name,
        ).1.contains(listing(help_step(q, table, name).0)),
{
    let effs = help_step(q, table, name).1;
    if !seated_in(q.helped, table) && seated_in(q.waiting, table) {
        let moved = moved_up(q.waiting, index_of(q.waiting, table));
        lemma_notices_are_not_listings(moved);
        let n = notices(moved).len();
        assert(effs[n + 1int] == listing(help_step(q, table, name).0));
        assert forall|i: int| 0 <= i < effs.len() && (#[trigger] effs[i]) is Broadcast implies effs[i]
            == listing(help_step(q, table, name).0) by {
            if i < n {
                assert(effs[i] == notices(moved)[i]);
            }
        }
    }
}

/// Taking out a student in the queue, by an assistant or on their own, sends every
/// assistant the listing of the queue without them, and no other listing.
pub proof fn law_remove_broadcasts_new_listing(q: QueueView, table: u32)
    ensures
        broadcasts_show(remove_step(q, table).1, remove_step(q, table).0),
        broadcasts_show(leave_step(q, table).1, leave_step(q, table).0),
        q.seated(table) ==> remove_step(q, table).1.contains(listing(remove_step(q, table).0)),
        q.seated(table) ==> leave_step(q, table).1.contains(listing(leave_step(q, table).0)),
{
    if q.seated(table) {
        let moved = if seated_in(q.waiting, table) {
            moved_up(q.waiting, index_of(q.waiting, table))
        } else {
            Seq::empty()
        };
        lemma_notices_are_not_listings(moved);
        let n = notices(moved).len();
        let r = remove_step(q, table).1;
        let l = leave_step(q, table).1;
        assert(r[n + 3int] == listing(remove_step(q, table).0));
        assert(l[n + 1int] == listing(leave_step(q, table).0));
        assert forall|i: int| 0 <= i < r.len() && (#[trigger] r[i]) is Broadcast implies r[i]
            == listing(remove_step(q, table).0) by {
            if i < n {
                assert(r[i] == notices(moved)[i]);
            }
        }
        assert forall|i: int| 0 <= i < l.len() && (#[trigger] l[i]) is Broadcast implies l[i]
            == listing(leave_step(q, table).0) by {
            if i < n {
                assert(l[i] == notices(moved)[i]);
            }
        }
    }
}

/// Whatever a student or an assistant sends, every listing that goes to the assistants is
/// the listing of the queue after the command; and whenever the command changes the queue,
/// that listing goes out.
pub proof fn law_changes_are_broadcast(
    q: QueueView,
    table: u32,
    task: Seq<char>,
    name: Seq<char>,
    command: Option<Seq<char>>,
    argument: u8,
)
    ensures
        broadcasts_show(
            student_step(q, table, task, command).1,
            student_step(q, table, task, command).0,
        ),
        student_step(q, table, task, command).0 != q ==> student_step(
            q,
            table,
            task,
            command,
        ).1.contains(listing(student_step(q, table, task, command).0)),
        broadcasts_show(ta_step(q, name, command, argument).1, ta_step(q, name, command, argument).0),
        ta_step(q, name, command, argument).0 != q ==> ta_step(
            q,
            name,
            command,
            argument,
        ).1.contains(listing(ta_step(q, name, command, argument).0)),
{
    law_join_broadcasts_new_listing(q, table, task);
    law_remove_broadcasts_new_listing(q, table);
    law_help_broadcasts_new_listing(q, argument as u32, name);
    law_remove_broadcasts_new_listing(q, argument as u32);
    lemma_notices_are_not_listings(Seq::empty());
}

/// A notice of a place tells the place that a poll then answers.
pub open spec fn notice_is_true(e: Effect, after: QueueView) -> bool {
    match e {
        Effect::Notify(u, m) => m.kind == OutType::Index ==> poll_step(after, u) == seq![
            Effect::Reply(m),
        ],
        _ => true,
    }
}

/// Every student whose place changed is told their new place.
pub open spec fn movers_told(effs: Seq<Effect>, before: QueueView, after: QueueView) -> bool {
    forall|u: u32|
        #![trigger standing_of(after, u)]
        seated_in(after.waiting, u) && standing_of(after, u) != standing_of(before, u)
            ==> effs.contains(
            Effect::Notify(
                u,
                msg(OutType::Index, decimal((index_of(after.waiting, u) + 1) as nat)),
            ),
        )
}

/// Where the student at place `p` leaves a line of distinct tables, a student still in
/// line was at the same place before it, or one place further back; and one who was
/// behind is among those who moved up, with their new place.
proof fn lemma_line_shift(w: Seq<Seat>, p: int, u: u32)
    requires
        distinct(w),
        0 <= p < w.len(),
        w.len() <= SLOTS,
        seated_in(w.remove(p), u),
    ensures
        seated_in(w, u),
        index_of(w, u) == if index_of(w.remove(p), u) < p {
            index_of(w.remove(p), u)
        } else {
            index_of(w.remove(p), u) + 1
        },
        index_of(w.remove(p), u) >= p ==> moved_up(w, p)[index_of(w.remove(p), u) - p] == (
            u,
            (index_of(w.remove(p), u) + 1) as u32,
        ),
{
    let w2 = w.remove(p);
    lemma_remove_seated(w, p);
    let i2 = index_of(w2, u);
    assert(w2[i2] == w2[i2]);
    let j = if i2 < p { i2 } else { i2 + 1 };
    assert(w2[i2] == w[j]);
    lemma_index_of_unique(w, j);
}

/// The notices to the students behind a student who leaves the line are true after
/// help and after a removal alike.
proof fn lemma_moved_notices_true(q: QueueView, table: u32, name: Seq<char>)
    requires
        q.valid(),
        seated_in(q.waiting, table),
    ensures
        forall|i: int|
            0 <= i < notices(moved_up(q.waiting, index_of(q.waiting, table))).len()
                ==> notice_is_true(
                #[trigger] notices(moved_up(q.waiting, index_of(q.waiting, table)))[i],
                q.helping(table, name),
            ) && notice_is_true(
                notices(moved_up(q.waiting, index_of(q.waiting, table)))[i],
                q.without(table),
            ),
{
    let mv = moved_up(q.waiting, index_of(q.waiting, table));
    law_moved_up_places(q, table, name, table);
    assert forall|i: int| 0 <= i < notices(mv).len() implies notice_is_true(
        #[trigger] notices(mv)[i],
        q.helping(table, name),
    ) && notice_is_true(notices(mv)[i], q.without(table)) by {
        assert(mv[i] == mv[i]);
    }
}

/// The students whose place changes when a student leaves the line are among the
/// notices, with their new places.
proof fn lemma_movers_in_notices(q: QueueView, table: u32, after: QueueView, effs: Seq<Effect>)
    requires
        q.valid(),
        seated_in(q.waiting, table),
        after.waiting == q.waiting.remove(index_of(q.waiting, table)),
        forall|k: int|
            0 <= k < notices(moved_up(q.waiting, index_of(q.waiting, table))).len() ==> effs[k]
                == notices(moved_up(q.waiting, index_of(q.waiting, table)))[k],
        notices(moved_up(q.waiting, index_of(q.waiting, table))).len() <= effs.len(),
    ensures
        movers_told(effs, q, after),
{
    let w = q.waiting;
    let p = index_of(w, table);
    assert(w[p] == w[p]);
    lemma_distinct_bounded(w, SLOTS as nat);
    let mv = moved_up(w, p);
    let w2 = after.waiting;
    assert forall|u: u32|
        seated_in(w2, u) && #[trigger] standing_of(after, u) != standing_of(q, u) implies effs.contains(
        Effect::Notify(u, msg(OutType::Index, decimal((index_of(w2, u) + 1) as nat))),
    ) by {
        lemma_line_shift(w, p, u);
        let k = index_of(w2, u) - p;
        assert(effs[k] == notices(mv)[k]);
    }
}

/// When the student at `table` starts getting help, every notice of a place tells the
/// place that a poll then answers, and every student whose place changed gets one.
pub proof fn law_help_notices_are_true(q: QueueView, table: u32, name: Seq<char>)
    requires
        q.valid(),
    ensures
        forall|i: int| 0 <= i < help_step(q, table, name).1.len() ==> notice_is_true(
            #[trigger] help_step(q, table, name).1[i],
            help_step(q, table, name).0,
        ),
        movers_told(help_step(q, table, name).1, q, help_step(q, table, name).0),
{
    let hs = help_step(q, table, name);
    if !seated_in(q.helped, table) && seated_in(q.waiting, table) {
        let mv = moved_up(q.waiting, index_of(q.waiting, table));
        let n = notices(mv).len();
        lemma_moved_notices_true(q, table, name);
        assert forall|i: int| 0 <= i < hs.1.len() implies notice_is_true(#[trigger] hs.1[i], hs.0) by {
            if i < n {
                assert(hs.1[i] == notices(mv)[i]);
            }
        }
        lemma_movers_in_notices(q, table, hs.0, hs.1);
    }
}

/// When the student at `table` is taken out of the queue, by an assistant or on their
/// own, every notice of a place tells the place that a poll then answers, and every
/// student whose place changed gets one.
pub proof fn law_remove_notices_are_true(q: QueueView, table: u32)
    requires
        q.valid(),
    ensures
        forall|i: int| 0 <= i < remove_step(q, table).1.len() ==> notice_is_true(
            #[trigger] remove_step(q, table).1[i],
            remove_step(q, table).0,
        ),
        forall|i: int| 0 <= i < leave_step(q, table).1.len() ==> notice_is_true(
            #[trigger] leave_step(q, table).1[i],
            leave_step(q, table).0,
        ),
        movers_told(remove_step(q, table).1, q, remove_step(q, table).0),
        movers_told(leave_step(q, table).1, q, leave_step(q, table).0),
{
    let rs = remove_step(q, table);
    let ls = leave_step(q, table);
    lemma_one_list(q, table);
    if seated_in(q.waiting, table) {
        let mv = moved_up(q.waiting, index_of(q.waiting, table));
        let n = notices(mv).len();
        lemma_moved_notices_true(q, table, Seq::empty());
        assert forall|i: int| 0 <= i < rs.1.len() implies notice_is_true(#[trigger] rs.1[i], rs.0) by {
            if i < n {
                assert(rs.1[i] == notices(mv)[i]);
            }
        }
        assert forall|i: int| 0 <= i < ls.1.len() implies notice_is_true(#[trigger] ls.1[i], ls.0) by {
            if i < n {
                assert(ls.1[i] == notices(mv)[i]);
            }
        }
        lemma_movers_in_notices(q, table, rs.0, rs.1);
        lemma_movers_in_notices(q, table, ls.0, ls.1);
    } else if seated_in(q.helped, table) {
        let none = notices(Seq::<(u32, u32)>::empty());
        assert(none =~= Seq::<Effect>::empty());
        assert(rs.0.waiting == q.waiting);
        assert forall|i: int| 0 <= i < rs.1.len() implies notice_is_true(#[trigger] rs.1[i], rs.0) by {
        }
        assert forall|i: int| 0 <= i < ls.1.len() implies notice_is_true(#[trigger] ls.1[i], ls.0) by {
        }
    }
}

/// Where `m` does not occur from `from` on, `find` finds nothing, and the other way round.
pub proof fn lemma_find_none(s: Seq<char>, m: Seq<char>, from: int)
    requires
        0 <= from,
    ensures
        find(s, m, from) is None <==> forall|i: int| from <= i ==> !occurs_at(s, m, i),
    decreases s.len() + 1 - from,
{
    if from + m.len() > s.len() {
    } else if occurs_at(s, m, from) {
    } else {
        lemma_find_none(s, m, from + 1);
        assert forall|i: int| from <= i && (forall|j: int| from + 1 <= j ==> !occurs_at(s, m, j))
            implies !occurs_at(s, m, i) by {
            if i == from {
            } else {
                assert(from + 1 <= i);
            }
        }
    }
}

/// A cookie header without `access_token_cookie=` carries no token.
pub proof fn law_no_marker_no_token(cookie: Seq<char>)
    requires
        forall|i: int| 0 <= i ==> !occurs_at(cookie, marker(), i),
    ensures
        second_piece(cookie, marker()) is None,
{
    lemma_find_none(cookie, marker(), 0);
}

/// A cookie header that starts with `access_token_cookie=` carries as its token all
/// that follows, where that does not hold `access_token_cookie=` again.
pub proof fn law_marker_then_token(token: Seq<char>)
    requires
        forall|i: int| 0 <= i ==> !occurs_at(token, marker(), i),
    ensures
        second_piece(marker() + token, marker()) == Some(token),
{
    let s = marker() + token;
    assert(s.subrange(0, marker().len() as int) =~= marker());
    assert(occurs_at(s, marker(), 0));
    assert(s.skip(marker().len() as int) =~= token);
    lemma_find_none(token, marker(), 0);
}

} // verus!
