//! The help queue of one lab room.
//!
//! Every table of the room has a slot. A slot is empty, holds a student who waits for
//! a teaching assistant, or holds a student who is being helped. The waiting students
//! and the students being helped form two doubly linked lists threaded through the
//! slots, each with a head and a tail. A waiting student's `value` is their place in
//! the queue, counted from one.
use vstd::prelude::*;

use crate::text::{decimal, decimal_string};
use crate::links::{
    lemma_join_links, lemma_linked_at, lemma_remove_distinct, unlink_frame,
    lemma_unlink_waiting, lemma_unlink_keeps_helped, lemma_unlink_accounted, lemma_settle_waiting,
    lemma_settle_rest, lemma_unlink_helped_list, lemma_unlink_keeps_line,
    lemma_unlink_helped_accounted, lemma_append_helped, lemma_lists_valid,
};

verus! {

/// The highest table number of the room; tables are numbered from 1.
pub const MAX_TABLE: u8 = 30;

/// The number of slots: one per table number from 0 to `MAX_TABLE`.
pub const SLOTS: usize = MAX_TABLE as usize + 1;

/// What a slot holds about its student.
pub struct QueueElement {
    pub value: u32,
    pub helped_by: String,
    pub task: String,
    pub next: Option<u32>,
    pub previous: Option<u32>,
}

/// A slot: waiting (`Q`), being helped (`H`) or empty (`N`).
pub enum QueueState {
    Q(QueueElement),
    H(QueueElement),
    N,
}

/// A student in one of the two lists, by table, with a text: the task of a waiting
/// student, or the name of the assistant who helps a student.
pub struct Seat {
    pub table: u32,
    pub text: Seq<char>,
}

/// The queue as two sequences: the waiting students, first in line first, and the
/// students being helped, in the order in which help began.
pub struct QueueView {
    pub waiting: Seq<Seat>,
    pub helped: Seq<Seat>,
}

/// Whether a student at `table` is in `list`.
pub open spec fn seated_in(list: Seq<Seat>, table: u32) -> bool {
    exists|i: int| 0 <= i < list.len() && list[i].table == table
}

/// The place of `table` in `list`, where it is there.
pub open spec fn index_of(list: Seq<Seat>, table: u32) -> int {
    choose|i: int| 0 <= i < list.len() && list[i].table == table
}

/// No table occurs twice in `list`.
pub open spec fn distinct(list: Seq<Seat>) -> bool {
    forall|i: int, j: int|
        0 <= i < list.len() && 0 <= j < list.len() && i != j ==> list[i].table != list[j].table
}

/// Every table in `list` has a slot.
pub open spec fn in_room(list: Seq<Seat>) -> bool {
    forall|i: int| 0 <= i < list.len() ==> list[i].table < SLOTS
}

impl QueueView {
    /// No table is twice in the queue.
    pub open spec fn sound(self) -> bool {
        &&& distinct(self.waiting)
        &&& distinct(self.helped)
        &&& forall|i: int, j: int|
            0 <= i < self.waiting.len() && 0 <= j < self.helped.len()
                ==> self.waiting[i].table != self.helped[j].table
    }

    /// The view of a queue in a room: no table is twice in the queue, and each has a slot.
    pub open spec fn valid(self) -> bool {
        &&& self.sound()
        &&& in_room(self.waiting)
        &&& in_room(self.helped)
    }

    /// Whether the student at `table` waits or is being helped.
    pub open spec fn seated(self, table: u32) -> bool {
        seated_in(self.waiting, table) || seated_in(self.helped, table)
    }

    /// The queue after the student at `table` joins it with `task`: last in line.
    pub open spec fn joined(self, table: u32, task: Seq<char>) -> QueueView {
        QueueView { waiting: self.waiting.push(Seat { table, text: task }), helped: self.helped }
    }

    /// The queue after the waiting student at `table` starts getting help from `name`:
    /// out of the line, and last among those being helped.
    pub open spec fn helping(self, table: u32, name: Seq<char>) -> QueueView {
        QueueView {
            waiting: self.waiting.remove(index_of(self.waiting, table)),
            helped: self.helped.push(Seat { table, text: name }),
        }
    }

    /// The queue after the student at `table` leaves it, from whichever list holds them.
    pub open spec fn without(self, table: u32) -> QueueView {
        if seated_in(self.waiting, table) {
            QueueView {
                waiting: self.waiting.remove(index_of(self.waiting, table)),
                helped: self.helped,
            }
        } else if seated_in(self.helped, table) {
            QueueView {
                waiting: self.waiting,
                helped: self.helped.remove(index_of(self.helped, table)),
            }
        } else {
            self
        }
    }
}

/// The students behind place `p` of `line`, each with the place they hold once the
/// student at `p` has left: one less than before.
pub open spec fn moved_up(line: Seq<Seat>, p: int) -> Seq<(u32, u32)> {
    Seq::new(
        (line.len() - p - 1) as nat,
        |k: int| (line[p + 1 + k].table, (p + 1 + k) as u32),
    )
}

/// Where the student at a table stands.
#[derive(Debug, PartialEq, Eq)]
pub enum Standing {
    /// Waiting, at this place in the line.
    Waiting(u32),
    /// Being helped by the assistant of this name.
    Helped(String),
    /// Not in the queue.
    Absent,
}

/// The view of a `Standing`.
pub enum StandingView {
    Waiting(nat),
    Helped(Seq<char>),
    Absent,
}

impl View for Standing {
    type V = StandingView;

    open spec fn view(&self) -> StandingView {
        match self {
            Standing::Waiting(v) => StandingView::Waiting(*v as nat),
            Standing::Helped(name) => StandingView::Helped(name@),
            Standing::Absent => StandingView::Absent,
        }
    }
}

/// Where the student at `table` stands in `q`.
pub open spec fn standing_of(q: QueueView, table: u32) -> StandingView {
    if seated_in(q.waiting, table) {
        StandingView::Waiting((index_of(q.waiting, table) + 1) as nat)
    } else if seated_in(q.helped, table) {
        StandingView::Helped(q.helped[index_of(q.helped, table)].text)
    } else {
        StandingView::Absent
    }
}

/// Why the queue refused a request about a table.
#[derive(Debug, PartialEq, Eq, Structural, Clone, Copy)]
pub enum QueueError {
    /// The student is neither waiting nor being helped.
    NotInQueue,
    /// The student is being helped already.
    AlreadyHelped,
}

/// The table before place `i` of `list`, if any.
pub open spec fn link_prev(list: Seq<Seat>, i: int) -> Option<u32> {
    if i == 0 {
        None
    } else {
        Some(list[i - 1].table)
    }
}

/// The table after place `i` of `list`, if any.
pub open spec fn link_next(list: Seq<Seat>, i: int) -> Option<u32> {
    if i + 1 == list.len() {
        None
    } else {
        Some(list[i + 1].table)
    }
}

/// The first table of `list`, if any.
pub open spec fn first_table(list: Seq<Seat>) -> Option<u32> {
    if list.len() == 0 {
        None
    } else {
        Some(list[0].table)
    }
}

/// The last table of `list`, if any.
pub open spec fn last_table(list: Seq<Seat>) -> Option<u32> {
    if list.len() == 0 {
        None
    } else {
        Some(list[list.len() - 1].table)
    }
}

/// Slot `st` holds place `i` of the waiting line `list`, with `value` as its place number.
pub open spec fn waiting_node(st: QueueState, list: Seq<Seat>, i: int, value: int) -> bool {
    match st {
        QueueState::Q(e) => {
            &&& e.value == value
            &&& e.task@ == list[i].text
            &&& e.previous == link_prev(list, i)
            &&& e.next == link_next(list, i)
        },
        _ => false,
    }
}

/// Slot `st` holds place `i` of the list `list` of students being helped.
pub open spec fn helped_node(st: QueueState, list: Seq<Seat>, i: int) -> bool {
    match st {
        QueueState::H(e) => {
            &&& e.value == 0
            &&& e.task@ == Seq::<char>::empty()
            &&& e.helped_by@ == list[i].text
            &&& e.previous == link_prev(list, i)
            &&& e.next == link_next(list, i)
        },
        _ => false,
    }
}

/// The slots hold the waiting line `list`; the places before `settled` carry their
/// place number, those from `settled` on one more.
#[verifier::opaque]
pub open spec fn waiting_linked(slots: Seq<QueueState>, list: Seq<Seat>, settled: int) -> bool {
    forall|i: int|
        #![trigger list[i]]
        0 <= i < list.len() ==> {
            &&& list[i].table < slots.len()
            &&& waiting_node(
                slots[list[i].table as int],
                list,
                i,
                if i < settled {
                    i + 1
                } else {
                    i + 2
                },
            )
        }
}

/// The slots hold the list `list` of students being helped.
#[verifier::opaque]
pub open spec fn helped_linked(slots: Seq<QueueState>, list: Seq<Seat>) -> bool {
    forall|i: int|
        #![trigger list[i]]
        0 <= i < list.len() ==> {
            &&& list[i].table < slots.len()
            &&& helped_node(slots[list[i].table as int], list, i)
        }
}

/// Every occupied slot belongs to the list of its kind.
#[verifier::opaque]
pub open spec fn accounted(slots: Seq<QueueState>, waiting: Seq<Seat>, helped: Seq<Seat>) -> bool {
    forall|t: int|
        #![trigger slots[t]]
        0 <= t < slots.len() ==> (slots[t] is Q ==> seated_in(waiting, t as u32)) && (slots[t] is H
            ==> seated_in(helped, t as u32))
}

/// The text of one line of the queue listing that teaching assistants see.
pub open spec fn entry_text(index: nat, table: nat, task: Seq<char>) -> Seq<char> {
    "{\"index\": \""@ + decimal(index) + "\", \"table_number\": \""@ + decimal(table)
        + "\",\"task\": \""@ + task + "\"}"@
}

/// The lines of the listing: the students being helped, in order, each with place 0
/// and no task, then the waiting students in line order with their places and tasks.
pub open spec fn entries(q: QueueView) -> Seq<Seq<char>> {
    q.helped.map(|i: int, s: Seat| entry_text(0, s.table as nat, Seq::empty())) + q.waiting.map(
        |i: int, s: Seat| entry_text((i + 1) as nat, s.table as nat, s.text),
    )
}

/// The items one after the other, with `sep` between each two.
pub open spec fn joined_text(items: Seq<Seq<char>>, sep: Seq<char>) -> Seq<char>
    decreases items.len(),
{
    if items.len() == 0 {
        Seq::empty()
    } else if items.len() == 1 {
        items[0]
    } else {
        joined_text(items.drop_last(), sep) + sep + items.last()
    }
}

/// The listing of the queue: its lines, separated by a comma and a space, in brackets.
pub open spec fn queue_text(q: QueueView) -> Seq<char> {
    "["@ + joined_text(entries(q), ", "@) + "]"@
}

/// Joining one more item extends the joined text by the separator and the item.
proof fn lemma_joined_step(items: Seq<Seq<char>>, sep: Seq<char>, k: int)
    requires
        0 <= k < items.len(),
    ensures
        joined_text(items.take(k + 1), sep) == if k == 0 {
            items[0]
        } else {
            joined_text(items.take(k), sep) + sep + items[k]
        },
{
    let t = items.take(k + 1);
    assert(t.len() == k + 1);
    if k > 0 {
        assert(t.drop_last() =~= items.take(k));
        assert(t.last() == items[k]);
    } else {
        assert(t[0] == items[0]);
    }
}

/// Writes one line of the listing.
fn entry_string(index: u32, table: u32, task: &str) -> (r: String)
    ensures
        r@ == entry_text(index as nat, table as nat, task@),
{
    let mut r = String::from_str("{\"index\": \"");
    let idx = decimal_string(index);
    r.append(idx.as_str());
    r.append("\", \"table_number\": \"");
    let tab = decimal_string(table);
    r.append(tab.as_str());
    r.append("\",\"task\": \"");
    r.append(task);
    r.append("\"}");
    r
}

/// The slots of a room together with the ends of the two lists.
pub struct QueueBoard {
    slots: Vec<QueueState>,
    q_head: Option<u32>,
    q_tail: Option<u32>,
    h_head: Option<u32>,
    h_tail: Option<u32>,
    waiting: Ghost<Seq<Seat>>,
    helped: Ghost<Seq<Seat>>,
}

impl View for QueueBoard {
    type V = QueueView;

    closed spec fn view(&self) -> QueueView {
        QueueView { waiting: self.waiting@, helped: self.helped@ }
    }
}

impl QueueBoard {
    /// The slots hold exactly the two lists of the view, and the heads and tails name
    /// their ends.
    pub closed spec fn wf(&self) -> bool {
        self.shaped(self.waiting@.len() as int)
    }

    /// As `wf`, except that the waiting places from `settled` on carry a place number
    /// one too high.
    closed spec fn shaped(&self, settled: int) -> bool {
        &&& self.slots@.len() == SLOTS
        &&& distinct(self.waiting@)
        &&& distinct(self.helped@)
        &&& waiting_linked(self.slots@, self.waiting@, settled)
        &&& helped_linked(self.slots@, self.helped@)
        &&& accounted(self.slots@, self.waiting@, self.helped@)
        &&& self.q_head == first_table(self.waiting@)
        &&& self.q_tail == last_table(self.waiting@)
        &&& self.h_head == first_table(self.helped@)
        &&& self.h_tail == last_table(self.helped@)
    }

    /// A well-formed board has a valid view.
    pub proof fn lemma_valid(&self)
        requires
            self.wf(),
        ensures
            self@.valid(),
            self@.waiting.len() + self@.helped.len() <= SLOTS,
    {
        lemma_lists_valid(self.slots@, self.waiting@, self.helped@);
    }

    /// An empty room: every slot empty, both lists empty.
    pub fn new() -> (board: QueueBoard)
        ensures
            board.wf(),
            board@.waiting.len() == 0,
            board@.helped.len() == 0,
    {
        let mut slots: Vec<QueueState> = Vec::new();
        let mut k: usize = 0;
        while k < SLOTS
            invariant
                k <= SLOTS,
                slots@.len() == k,
                forall|t: int| 0 <= t < k ==> slots@[t] is N,
            decreases SLOTS - k,
        {
            slots.push(QueueState::N);
            k = k + 1;
        }
        proof {
            reveal(waiting_linked);
            reveal(helped_linked);
            reveal(accounted);
        }
        QueueBoard {
            slots,
            q_head: None,
            q_tail: None,
            h_head: None,
            h_tail: None,
            waiting: Ghost(Seq::empty()),
            helped: Ghost(Seq::empty()),
        }
    }

    /// Where the student at `table` stands: their place in line, the assistant helping
    /// them, or absent.
    pub fn standing(&self, table: u32) -> (r: Standing)
        requires
            self.wf(),
            table < SLOTS,
        ensures
            r@ == standing_of(self@, table),
    {
        proof {
            self.lemma_slot_kind(table);
            self.lemma_valid();
        }
        match &self.slots[table as usize] {
            QueueState::Q(q) => Standing::Waiting(q.value),
            QueueState::H(e) => {
                proof {
                    let w = self.waiting@;
                    if seated_in(w, table) {
                        let j = index_of(w, table);
                        assert(w[j] == w[j]);
                        assert(self.helped@[index_of(self.helped@, table)] == self.helped@[index_of(self.helped@, table)]);
                    }
                }
                Standing::Helped(e.helped_by.clone())
            },
            QueueState::N => Standing::Absent,
        }
    }

    /// An occupied slot is in the list of its kind, so a table in neither list has an
    /// empty slot, and the other way round.
    proof fn lemma_slot_kind(&self, table: u32)
        requires
            self.wf(),
            table < SLOTS,
        ensures
            seated_in(self.waiting@, table) <==> self.slots@[table as int] is Q,
            seated_in(self.helped@, table) <==> self.slots@[table as int] is H,
            seated_in(self.waiting@, table) ==> waiting_node(
                self.slots@[table as int],
                self.waiting@,
                index_of(self.waiting@, table),
                index_of(self.waiting@, table) + 1,
            ),
            seated_in(self.helped@, table) ==> helped_node(
                self.slots@[table as int],
                self.helped@,
                index_of(self.helped@, table),
            ),
    {
        reveal(waiting_linked);
        reveal(helped_linked);
        reveal(accounted);
        let w = self.waiting@;
        let h = self.helped@;
        assert(self.slots@[table as int] == self.slots@[table as int]);
        if seated_in(w, table) {
            let i = index_of(w, table);
            assert(w[i] == w[i]);
        }
        if seated_in(h, table) {
            let i = index_of(h, table);
            assert(h[i] == h[i]);
        }
    }

    /// Place `i` of the waiting line is held by its slot, with number `i + 1`.
    proof fn lemma_waiting_at(&self, i: int)
        requires
            self.wf(),
            0 <= i < self.waiting@.len(),
        ensures
            self.waiting@[i].table < SLOTS,
            waiting_node(self.slots@[self.waiting@[i].table as int], self.waiting@, i, i + 1),
    {
        reveal(waiting_linked);
        assert(self.waiting@[i] == self.waiting@[i]);
    }

    /// Place `i` of the list of students being helped is held by its slot.
    proof fn lemma_helped_at(&self, i: int)
        requires
            self.wf(),
            0 <= i < self.helped@.len(),
        ensures
            self.helped@[i].table < SLOTS,
            helped_node(self.slots@[self.helped@[i].table as int], self.helped@, i),
    {
        reveal(helped_linked);
        assert(self.helped@[i] == self.helped@[i]);
    }

    /// Puts `st` into slot `i` and hands back what the slot held.
    fn swap_slot(&mut self, i: usize, st: QueueState) -> (old_st: QueueState)
        requires
            i < old(self).slots@.len(),
        ensures
            old_st == old(self).slots@[i as int],
            final(self).slots@ == old(self).slots@.update(i as int, st),
            final(self).q_head == old(self).q_head,
            final(self).q_tail == old(self).q_tail,
            final(self).h_head == old(self).h_head,
            final(self).h_tail == old(self).h_tail,
            final(self).waiting == old(self).waiting,
            final(self).helped == old(self).helped,
    {
        let mut st = st;
        self.slots.set_and_swap(i, &mut st);
        st
    }

    /// The student at `table` joins the queue with `task`, last in line, and learns
    /// their place; a student already waiting or being helped is refused, and nothing
    /// changes.
    pub fn join(&mut self, table: u32, task: &str) -> (value: Option<u32>)
        requires
            old(self).wf(),
            table < SLOTS,
        ensures
            final(self).wf(),
            value is None <==> old(self)@.seated(table),
            value is None ==> final(self)@ == old(self)@,
            value matches Some(v) ==> v == old(self)@.waiting.len() + 1 && final(self)@ == old(
                self,
            )@.joined(table, task@),
    {
        let ghost w = self.waiting@;
        let ghost h = self.helped@;
        proof {
            self.lemma_slot_kind(table);
            self.lemma_valid();
        }
        match &self.slots[table as usize] {
            QueueState::N => {},
            _ => {
                return None;
            },
        }
        let ghost seat = Seat { table, text: task@ };
        let ghost w2 = w.push(seat);
        let value: u32;
        match self.q_tail {
            Some(qt) => {
                proof {
                    self.lemma_waiting_at(w.len() - 1);
                }
                let last = self.swap_slot(qt as usize, QueueState::N);
                match last {
                    QueueState::Q(mut q) => {
                        value = q.value + 1;
                        q.next = Some(table);
                        self.slots.set(qt as usize, QueueState::Q(q));
                    },
                    _ => {
                        proof {
                            assert(false);
                        }
                        return None;
                    },
                }
                let qe = QueueElement {
                    value: value,
                    helped_by: String::new(),
                    task: String::from_str(task),
                    next: None,
                    previous: Some(qt),
                };
                self.slots.set(table as usize, QueueState::Q(qe));
            },
            None => {
                value = 1;
                let qe = QueueElement {
                    value: 1,
                    helped_by: String::new(),
                    task: String::from_str(task),
                    next: None,
                    previous: None,
                };
                self.slots.set(table as usize, QueueState::Q(qe));
                self.q_head = Some(table);
            },
        }
        self.q_tail = Some(table);
        self.waiting = Ghost(w2);
        proof {
            let s = self.slots@;
            if w.len() > 0 {
                assert(w2[w.len() - 1] == w[w.len() - 1]);
                if w.len() > 1 {
                    assert(w2[w.len() - 2] == w[w.len() - 2]);
                }
            }
            assert(w2[w.len() as int] == seat);
            lemma_join_links(old(self).slots@, s, w, h, seat);
        }
        Some(value)
    }
    /// The waiting student at `table` leaves the line, and everyone behind them moves
    /// up one place; hands back each of those, in line order, with their new place.
    fn leave_line(&mut self, table: u32) -> (moved: Vec<(u32, u32)>)
        requires
            old(self).wf(),
            table < SLOTS,
            seated_in(old(self)@.waiting, table),
        ensures
            final(self).wf(),
            final(self)@ == old(self)@.without(table),
            moved@ == moved_up(old(self)@.waiting, index_of(old(self)@.waiting, table)),
    {
        let ghost w = self.waiting@;
        let ghost h = self.helped@;
        let ghost p = index_of(w, table);
        let ghost s0 = self.slots@;
        proof {
            self.lemma_slot_kind(table);
            self.lemma_valid();
            if p > 0 {
                self.lemma_waiting_at(p - 1);
            }
            if p + 1 < w.len() {
                self.lemma_waiting_at(p + 1);
            }
        }
        let cell = self.swap_slot(table as usize, QueueState::N);
        let (prev, next) = match cell {
            QueueState::Q(q) => (q.previous, q.next),
            _ => {
                proof {
                    assert(false);
                }
                return Vec::new();
            },
        };
        match prev {
            Some(pi) => {
                let before = self.swap_slot(pi as usize, QueueState::N);
                match before {
                    QueueState::Q(mut e) => {
                        e.next = next;
                        self.slots.set(pi as usize, QueueState::Q(e));
                    },
                    _ => {
                        proof {
                            assert(false);
                        }
                        return Vec::new();
                    },
                }
            },
            None => {
                self.q_head = next;
            },
        }
        match next {
            Some(ni) => {
                let after = self.swap_slot(ni as usize, QueueState::N);
                match after {
                    QueueState::Q(mut e) => {
                        e.previous = prev;
                        self.slots.set(ni as usize, QueueState::Q(e));
                    },
                    _ => {
                        proof {
                            assert(false);
                        }
                        return Vec::new();
                    },
                }
            },
            None => {
                self.q_tail = prev;
            },
        }
        let ghost w2 = w.remove(p);
        self.waiting = Ghost(w2);
        proof {
            let s = self.slots@;
            if p > 1 {
                assert(w2[p - 2] == w[p - 2]);
            }
            if p > 0 {
                assert(w2[p - 1] == w[p - 1]);
            }
            if p + 1 < w.len() {
                assert(w2[p] == w[p + 1]);
            }
            if p + 2 < w.len() {
                assert(w2[p + 1] == w[p + 2]);
            }
            if w2.len() > 0 {
                if p == 0 {
                    assert(w2[0] == w[1]);
                } else {
                    assert(w2[0] == w[0]);
                }
                if p + 1 == w.len() {
                    assert(w2[w2.len() - 1] == w[p - 1]);
                } else {
                    assert(w2[w2.len() - 1] == w[w.len() - 1]);
                }
            }
            assert forall|t: int| 0 <= t < SLOTS && unlink_frame(w, p, t) implies s[t] == s0[t] by {
            }
            lemma_remove_distinct(w, p);
            lemma_unlink_waiting(s0, s, w, p);
            lemma_unlink_keeps_helped(s0, s, w, h, p);
            lemma_unlink_accounted(s0, s, w, h, p);
            assert(self.shaped(p));
        }
        let mut moved: Vec<(u32, u32)> = Vec::new();
        let mut cur = next;
        let ghost mut k: int = p;
        while cur.is_some()
            invariant
                self.shaped(k),
                self.waiting@ == w2,
                self.helped@ == h,
                w2 == w.remove(p),
                0 <= p < w.len(),
                p <= k <= w2.len(),
                cur == (if k < w2.len() {
                    Some(w2[k].table)
                } else {
                    None::<u32>
                }),
                moved@ == moved_up(w, p).take(k - p),
            decreases w2.len() - k,
        {
            let c = cur.unwrap();
            proof {
                lemma_linked_at(self.slots@, w2, k, k);
            }
            let ghost s1 = self.slots@;
            let cell = self.swap_slot(c as usize, QueueState::N);
            match cell {
                QueueState::Q(mut e) => {
                    e.value = e.value - 1;
                    cur = e.next;
                    moved.push((c, e.value));
                    self.slots.set(c as usize, QueueState::Q(e));
                },
                _ => {
                    proof {
                        assert(false);
                    }
                    return moved;
                },
            }
            proof {
                let s = self.slots@;
                assert(w2[k] == w[k + 1]);
                assert forall|t: int| 0 <= t < SLOTS && t != w2[k].table implies s[t] == s1[t] by {
                }
                lemma_settle_waiting(s1, s, w2, k);
                lemma_settle_rest(s1, s, w2, h, k);
                assert(moved_up(w, p).take(k + 1 - p) =~= moved_up(w, p).take(k - p).push(
                    moved_up(w, p)[k - p],
                ));
                k = k + 1;
            }
        }
        proof {
            assert(moved_up(w, p).take(w2.len() - p) =~= moved_up(w, p));
            assert(self@ == old(self)@.without(table));
        }
        moved
    }
    /// The student at `table`, in neither list, starts getting help from `name`: last
    /// among those being helped.
    fn start_help(&mut self, table: u32, name: &str)
        requires
            old(self).wf(),
            table < SLOTS,
            !old(self)@.seated(table),
        ensures
            final(self).wf(),
            final(self)@ == (QueueView {
                waiting: old(self)@.waiting,
                helped: old(self)@.helped.push(Seat { table, text: name@ }),
            }),
    {
        let ghost w = self.waiting@;
        let ghost h = self.helped@;
        let ghost seat = Seat { table, text: name@ };
        let ghost h2 = h.push(seat);
        let ghost s0 = self.slots@;
        proof {
            self.lemma_slot_kind(table);
            if h.len() > 0 {
                self.lemma_helped_at(h.len() - 1);
            }
        }
        let he = QueueElement {
            value: 0,
            helped_by: String::from_str(name),
            task: String::new(),
            next: None,
            previous: self.h_tail,
        };
        match self.h_tail {
            Some(ht) => {
                let last = self.swap_slot(ht as usize, QueueState::N);
                match last {
                    QueueState::H(mut e) => {
                        e.next = Some(table);
                        self.slots.set(ht as usize, QueueState::H(e));
                    },
                    _ => {
                        proof {
                            assert(false);
                        }
                        return ;
                    },
                }
            },
            None => {
                self.h_head = Some(table);
            },
        }
        self.h_tail = Some(table);
        self.slots.set(table as usize, QueueState::H(he));
        self.helped = Ghost(h2);
        proof {
            if h.len() > 0 {
                assert(h2[h.len() - 1] == h[h.len() - 1]);
                if h.len() > 1 {
                    assert(h2[h.len() - 2] == h[h.len() - 2]);
                }
            }
            assert(h2[h.len() as int] == seat);
            lemma_append_helped(s0, self.slots@, w, h, seat);
        }
    }

    /// The helped student at `table` leaves the list of those being helped.
    fn leave_help(&mut self, table: u32)
        requires
            old(self).wf(),
            table < SLOTS,
            seated_in(old(self)@.helped, table),
        ensures
            final(self).wf(),
            final(self)@ == (QueueView {
                waiting: old(self)@.waiting,
                helped: old(self)@.helped.remove(index_of(old(self)@.helped, table)),
            }),
    {
        let ghost w = self.waiting@;
        let ghost h = self.helped@;
        let ghost p = index_of(h, table);
        let ghost s0 = self.slots@;
        proof {
            self.lemma_slot_kind(table);
            if p > 0 {
                self.lemma_helped_at(p - 1);
            }
            if p + 1 < h.len() {
                self.lemma_helped_at(p + 1);
            }
        }
        let cell = self.swap_slot(table as usize, QueueState::N);
        let (prev, next) = match cell {
            QueueState::H(e) => (e.previous, e.next),
            _ => {
                proof {
                    assert(false);
                }
                return ;
            },
        };
        match prev {
            Some(pi) => {
                let before = self.swap_slot(pi as usize, QueueState::N);
                match before {
                    QueueState::H(mut e) => {
                        e.next = next;
                        self.slots.set(pi as usize, QueueState::H(e));
                    },
                    _ => {
                        proof {
                            assert(false);
                        }
                        return ;
                    },
                }
            },
            None => {
                self.h_head = next;
            },
        }
        match next {
            Some(ni) => {
                let after = self.swap_slot(ni as usize, QueueState::N);
                match after {
                    QueueState::H(mut e) => {
                        e.previous = prev;
                        self.slots.set(ni as usize, QueueState::H(e));
                    },
                    _ => {
                        proof {
                            assert(false);
                        }
                        return ;
                    },
                }
            },
            None => {
                self.h_tail = prev;
            },
        }
        let ghost h2 = h.remove(p);
        self.helped = Ghost(h2);
        proof {
            let s = self.slots@;
            if p > 1 {
                assert(h2[p - 2] == h[p - 2]);
            }
            if p > 0 {
                assert(h2[p - 1] == h[p - 1]);
            }
            if p + 1 < h.len() {
                assert(h2[p] == h[p + 1]);
            }
            if p + 2 < h.len() {
                assert(h2[p + 1] == h[p + 2]);
            }
            if h2.len() > 0 {
                if p == 0 {
                    assert(h2[0] == h[1]);
                } else {
                    assert(h2[0] == h[0]);
                }
                if p + 1 == h.len() {
                    assert(h2[h2.len() - 1] == h[p - 1]);
                } else {
                    assert(h2[h2.len() - 1] == h[h.len() - 1]);
                }
            }
            assert forall|t: int| 0 <= t < SLOTS && unlink_frame(h, p, t) implies s[t] == s0[t] by {
            }
            lemma_remove_distinct(h, p);
            lemma_unlink_helped_list(s0, s, h, p);
            lemma_unlink_keeps_line(s0, s, w, h, p);
            lemma_unlink_helped_accounted(s0, s, w, h, p);
        }
    }
    /// A teaching assistant named `name` starts helping the student at `table`. A student
    /// who is not in the queue, or is being helped already, is refused and nothing
    /// changes. Otherwise the student leaves the line and is helped last; everyone who
    /// was behind them moves up one place, and is handed back, in line order, with their
    /// new place.
    pub fn help(&mut self, table: u32, name: &str) -> (r: Result<Vec<(u32, u32)>, QueueError>)
        requires
            old(self).wf(),
            table < SLOTS,
        ensures
            final(self).wf(),
            !old(self)@.seated(table) ==> (r matches Err(QueueError::NotInQueue) && final(self)@
                == old(self)@),
            seated_in(old(self)@.helped, table) ==> (r matches Err(QueueError::AlreadyHelped)
                && final(self)@ == old(self)@),
            seated_in(old(self)@.waiting, table) ==> (r matches Ok(moved) && moved@ == moved_up(
                old(self)@.waiting,
                index_of(old(self)@.waiting, table),
            ) && final(self)@ == old(self)@.helping(table, name@)),
    {
        proof {
            self.lemma_slot_kind(table);
            self.lemma_valid();
        }
        match &self.slots[table as usize] {
            QueueState::N => {
                return Err(QueueError::NotInQueue);
            },
            QueueState::H(_) => {
                proof {
                    if seated_in(self.waiting@, table) {
                        let i = index_of(self.waiting@, table);
                        let j = index_of(self.helped@, table);
                        assert(self.waiting@[i] == self.waiting@[i]);
                        assert(self.helped@[j] == self.helped@[j]);
                    }
                }
                return Err(QueueError::AlreadyHelped);
            },
            QueueState::Q(_) => {},
        }
        let ghost w = self.waiting@;
        let ghost h = self.helped@;
        let ghost p = index_of(w, table);
        let moved = self.leave_line(table);
        proof {
            let w2 = w.remove(p);
            if seated_in(w2, table) {
                let i = index_of(w2, table);
                let j = if i < p { i } else { i + 1 };
                assert(w2[i] == w[j]);
                assert(w[p] == w[p]);
            }
            if seated_in(h, table) {
                let j = index_of(h, table);
                assert(h[j] == h[j]);
                assert(w[p] == w[p]);
            }
        }
        self.start_help(table, name);
        Ok(moved)
    }

    /// A teaching assistant takes the student at `table` out of the queue, from whichever
    /// list holds them. A student who is not in the queue is refused and nothing changes.
    /// Where the student was waiting, everyone who was behind them moves up one place,
    /// and is handed back, in line order, with their new place; where the student was
    /// being helped, nobody moves.
    pub fn remove(&mut self, table: u32) -> (r: Result<Vec<(u32, u32)>, QueueError>)
        requires
            old(self).wf(),
            table < SLOTS,
        ensures
            final(self).wf(),
            final(self)@ == old(self)@.without(table),
            !old(self)@.seated(table) ==> r matches Err(QueueError::NotInQueue),
            seated_in(old(self)@.waiting, table) ==> (r matches Ok(moved) && moved@ == moved_up(
                old(self)@.waiting,
                index_of(old(self)@.waiting, table),
            )),
            seated_in(old(self)@.helped, table) ==> (r matches Ok(moved) && moved@.len() == 0),
    {
        proof {
            self.lemma_slot_kind(table);
            self.lemma_valid();
        }
        match &self.slots[table as usize] {
            QueueState::N => {
                return Err(QueueError::NotInQueue);
            },
            QueueState::H(_) => {
                proof {
                    if seated_in(self.waiting@, table) {
                        let i = index_of(self.waiting@, table);
                        let j = index_of(self.helped@, table);
                        assert(self.waiting@[i] == self.waiting@[i]);
                        assert(self.helped@[j] == self.helped@[j]);
                    }
                }
                self.leave_help(table);
                return Ok(Vec::new());
            },
            QueueState::Q(_) => {},
        }
        let moved = self.leave_line(table);
        Ok(moved)
    }

    /// The listing of the queue that teaching assistants see: the students being helped,
    /// then the waiting students in line order.
    pub fn build_queue(&self) -> (r: String)
        requires
            self.wf(),
        ensures
            r@ == queue_text(self@),
    {
        let ghost w = self.waiting@;
        let ghost h = self.helped@;
        let ghost items = entries(self@);
        let mut listing = String::new();
        let mut count: usize = 0;
        let mut cur = self.h_head;
        proof {
            self.lemma_valid();
            assert(items.take(0) =~= Seq::<Seq<char>>::empty());
            if h.len() > 0 {
                self.lemma_helped_at(0);
            }
        }
        while cur.is_some()
            invariant
                self.wf(),
                w == self.waiting@,
                h == self.helped@,
                items == entries(self@),
                w.len() + h.len() <= SLOTS,
                count <= h.len(),
                cur == (if count < h.len() {
                    Some(h[count as int].table)
                } else {
                    None::<u32>
                }),
                listing@ == joined_text(items.take(count as int), ", "@),
            decreases h.len() - count,
        {
            let c = cur.unwrap();
            proof {
                self.lemma_helped_at(count as int);
                lemma_joined_step(items, ", "@, count as int);
                assert(items[count as int] == entry_text(0, c as nat, Seq::empty()));
            }
            match &self.slots[c as usize] {
                QueueState::H(e) => {
                    if count > 0 {
                        listing.append(", ");
                    }
                    let line = entry_string(e.value, c, e.task.as_str());
                    listing.append(line.as_str());
                    cur = e.next;
                },
                _ => {
                    proof {
                        assert(false);
                    }
                    return String::new();
                },
            }
            count = count + 1;
        }
        cur = self.q_head;
        let ghost base = h.len();
        while cur.is_some()
            invariant
                self.wf(),
                w == self.waiting@,
                h == self.helped@,
                items == entries(self@),
                base == h.len(),
                w.len() + h.len() <= SLOTS,
                base <= count <= base + w.len(),
                cur == (if count < base + w.len() {
                    Some(w[count - base].table)
                } else {
                    None::<u32>
                }),
                listing@ == joined_text(items.take(count as int), ", "@),
            decreases base + w.len() - count,
        {
            let c = cur.unwrap();
            proof {
                self.lemma_waiting_at(count - base);
                lemma_joined_step(items, ", "@, count as int);
                assert(items[count as int] == entry_text(
                    (count - base + 1) as nat,
                    c as nat,
                    w[count - base].text,
                ));
            }
            match &self.slots[c as usize] {
                QueueState::Q(e) => {
                    if count > 0 {
                        listing.append(", ");
                    }
                    let line = entry_string(e.value, c, e.task.as_str());
                    listing.append(line.as_str());
                    cur = e.next;
                },
                _ => {
                    proof {
                        assert(false);
                    }
                    return String::new();
                },
            }
            count = count + 1;
        }
        proof {
            assert(items.take(count as int) =~= items);
        }
        let mut r = String::from_str("[");
        r.append(listing.as_str());
        r.append("]");
        r
    }
}

} // verus!
