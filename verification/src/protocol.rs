//! What the server does on each command that a student or a teaching assistant sends.
//!
//! A command changes the queue and yields a list of actions, in the order in which
//! they are to be carried out: replies to the connection that sent the command,
//! messages to students' connections, connections to close, and the new listing for
//! every teaching assistant.
use vstd::prelude::*;

use crate::queue::{
    QueueBoard, QueueError, QueueView, Standing, StandingView, SLOTS, moved_up, queue_text,
    standing_of, seated_in, index_of,
};
use crate::text::{decimal, decimal_string};

verus! {

/// The kind of a message to a client.
#[derive(PartialEq, Eq, Structural, Clone, Copy, Debug)]
pub enum OutType {
    Index,
    Helping,
    NotQueue,
    Info,
    Queue,
    Error,
}

/// A message to a client, sent as JSON.
#[derive(Debug, PartialEq, Eq)]
pub struct Output {
    pub error: String,
    pub data: String,
    pub message_type: OutType,
}

/// The view of an `Output`.
pub struct Message {
    pub error: Seq<char>,
    pub data: Seq<char>,
    pub kind: OutType,
}

impl View for Output {
    type V = Message;

    open spec fn view(&self) -> Message {
        Message { error: self.error@, data: self.data@, kind: self.message_type }
    }
}

/// One thing for the server to do after a command.
#[derive(Debug, PartialEq, Eq)]
pub enum Action {
    /// Send this message to the connection that sent the command.
    Reply(Output),
    /// Send this bare text to the connection that sent the command.
    ReplyText(String),
    /// Send this message to the student at this table, where one is connected.
    Notify(u32, Output),
    /// Close the connection of the student at this table, where one is connected.
    Disconnect(u32),
    /// Close the connection that sent the command.
    DisconnectSelf,
    /// Send this message to every connected teaching assistant.
    Broadcast(Output),
}

/// The view of an `Action`.
pub enum Effect {
    Reply(Message),
    ReplyText(Seq<char>),
    Notify(u32, Message),
    Disconnect(u32),
    DisconnectSelf,
    Broadcast(Message),
}

impl View for Action {
    type V = Effect;

    open spec fn view(&self) -> Effect {
        match self {
            Action::Reply(o) => Effect::Reply(o@),
            Action::ReplyText(t) => Effect::ReplyText(t@),
            Action::Notify(t, o) => Effect::Notify(*t, o@),
            Action::Disconnect(t) => Effect::Disconnect(*t),
            Action::DisconnectSelf => Effect::DisconnectSelf,
            Action::Broadcast(o) => Effect::Broadcast(o@),
        }
    }
}

/// The views of a list of actions.
pub open spec fn effects(acts: Seq<Action>) -> Seq<Effect> {
    acts.map_values(|a: Action| a@)
}

/// A message of kind `kind` with `data`, and no error.
pub open spec fn msg(kind: OutType, data: Seq<char>) -> Message {
    Message { error: Seq::empty(), data, kind }
}

/// An error message.
pub open spec fn error_msg(error: Seq<char>) -> Message {
    Message { error, data: Seq::empty(), kind: OutType::Error }
}

/// The new listing of the queue, for every teaching assistant.
pub open spec fn listing(q: QueueView) -> Effect {
    Effect::Broadcast(msg(OutType::Queue, queue_text(q)))
}

/// A message to each student who moved up, with their new place.
pub open spec fn notices(moved: Seq<(u32, u32)>) -> Seq<Effect> {
    moved.map_values(|m: (u32, u32)| Effect::Notify(m.0, msg(OutType::Index, decimal(m.1 as nat))))
}

/// A student at `table` with `task` asks to join the queue.
pub open spec fn join_step(q: QueueView, table: u32, task: Seq<char>) -> (QueueView, Seq<Effect>) {
    if q.seated(table) {
        (q, seq![Effect::Reply(error_msg("Allredy in queue"@))])
    } else {
        let q2 = q.joined(table, task);
        (
            q2,
            seq![
                Effect::Reply(msg(OutType::Index, decimal(q.waiting.len() + 1))),
                listing(q2),
            ],
        )
    }
}

/// A student at `table` asks where they stand; a student not in the queue is told so
/// and their connection closes.
pub open spec fn poll_step(q: QueueView, table: u32) -> Seq<Effect> {
    match standing_of(q, table) {
        StandingView::Waiting(n) => seq![Effect::Reply(msg(OutType::Index, decimal(n)))],
        StandingView::Helped(name) => seq![
            Effect::Reply(msg(OutType::Helping, "Getting help from "@ + name)),
        ],
        StandingView::Absent => seq![
            Effect::Reply(msg(OutType::NotQueue, "Not in queue"@)),
            Effect::DisconnectSelf,
        ],
    }
}

/// A teaching assistant named `name` asks to help the student at `table`.
pub open spec fn help_step(q: QueueView, table: u32, name: Seq<char>) -> (QueueView, Seq<Effect>) {
    if seated_in(q.helped, table) {
        (q, seq![Effect::Reply(error_msg("Student already getting help"@))])
    } else if !seated_in(q.waiting, table) {
        (q, seq![Effect::Reply(error_msg("Student not in queue"@))])
    } else {
        let q2 = q.helping(table, name);
        (
            q2,
            notices(moved_up(q.waiting, index_of(q.waiting, table))) + seq![
                Effect::Reply(msg(OutType::Info, "Now helping "@ + decimal(table as nat))),
                listing(q2),
                Effect::Notify(table, msg(OutType::Helping, "Getting help from "@ + name)),
            ],
        )
    }
}

/// A teaching assistant asks to take the student at `table` out of the queue.
pub open spec fn remove_step(q: QueueView, table: u32) -> (QueueView, Seq<Effect>) {
    if !q.seated(table) {
        (q, seq![Effect::Reply(error_msg("Student not in queue"@))])
    } else {
        let q2 = q.without(table);
        let moved = if seated_in(q.waiting, table) {
            moved_up(q.waiting, index_of(q.waiting, table))
        } else {
            Seq::empty()
        };
        (
            q2,
            notices(moved) + seq![
                Effect::Reply(msg(OutType::Info, "Removing student "@ + decimal(table as nat))),
                Effect::Notify(table, msg(OutType::NotQueue, "Not in queue"@)),
                Effect::Disconnect(table),
                listing(q2),
            ],
        )
    }
}

/// The student at `table` leaves the queue, from whichever list holds them. Everyone
/// behind them in line is told their new place, the student is told they are out of the
/// queue and their connection closes, and every assistant gets the new listing. A
/// student not in the queue is told so, and nothing changes.
pub open spec fn leave_step(q: QueueView, table: u32) -> (QueueView, Seq<Effect>) {
    if !q.seated(table) {
        (q, seq![Effect::Reply(error_msg("Not in queue"@))])
    } else {
        let q2 = q.without(table);
        let moved = if seated_in(q.waiting, table) {
            moved_up(q.waiting, index_of(q.waiting, table))
        } else {
            Seq::empty()
        };
        (
            q2,
            notices(moved) + seq![
                Effect::Reply(msg(OutType::NotQueue, "Not in queue"@)),
                listing(q2),
                Effect::DisconnectSelf,
            ],
        )
    }
}

/// A teaching assistant asks for the listing of the queue.
pub open spec fn get_queue_step(q: QueueView) -> Seq<Effect> {
    seq![Effect::Reply(msg(OutType::Queue, queue_text(q)))]
}

/// The reply to a command that is not known.
pub open spec fn invalid_command() -> Seq<Effect> {
    seq![Effect::Reply(error_msg("Invalid command"@))]
}

/// The reply to a message that does not parse as a command.
pub open spec fn not_a_command() -> Seq<Effect> {
    seq![Effect::ReplyText("Not text"@)]
}

/// What a message from the student at `table`, who came with `task`, does: `command`
/// is the command it holds, or none where it does not parse as one.
pub open spec fn student_step(
    q: QueueView,
    table: u32,
    task: Seq<char>,
    command: Option<Seq<char>>,
) -> (QueueView, Seq<Effect>) {
    match command {
        None => (q, not_a_command()),
        Some(c) => if c == "poll"@ {
            (q, poll_step(q, table))
        } else if c == "join"@ {
            join_step(q, table, task)
        } else if c == "leave"@ {
            leave_step(q, table)
        } else {
            (q, invalid_command())
        },
    }
}

/// What a message from the teaching assistant `name` does: `command` is the command it
/// holds, or none where it does not parse as one, and `argument` its table number.
pub open spec fn ta_step(
    q: QueueView,
    name: Seq<char>,
    command: Option<Seq<char>>,
    argument: u8,
) -> (QueueView, Seq<Effect>) {
    match command {
        None => (q, not_a_command()),
        Some(c) => if c == "help"@ {
            help_step(q, argument as u32, name)
        } else if c == "remove"@ {
            remove_step(q, argument as u32)
        } else if c == "get_queue"@ {
            (q, get_queue_step(q))
        } else {
            (q, invalid_command())
        },
    }
}

/// Whether a teaching assistant's command needs its argument to name a slot.
pub open spec fn needs_slot(command: Option<Seq<char>>) -> bool {
    command matches Some(c) && (c == "help"@ || c == "remove"@)
}

/// Whether two texts are the same.
fn same_text(a: &str, b: &str) -> (r: bool)
    ensures
        r == (a@ == b@),
{
    let x = String::from_str(a);
    let y = String::from_str(b);
    x == y
}

/// A message with no error.
fn output(kind: OutType, data: String) -> (o: Output)
    ensures
        o@ == msg(kind, data@),
{
    Output { error: String::new(), data, message_type: kind }
}

/// An error message.
fn error_output(error: &str) -> (o: Output)
    ensures
        o@ == error_msg(error@),
{
    Output { error: String::from_str(error), data: String::new(), message_type: OutType::Error }
}

/// `prefix` followed by `rest`.
fn text_then(prefix: &str, rest: &str) -> (s: String)
    ensures
        s@ == prefix@ + rest@,
{
    let mut s = String::from_str(prefix);
    s.append(rest);
    s
}

/// Appends an action and keeps the views in step.
fn push_action(acts: &mut Vec<Action>, a: Action)
    ensures
        final(acts)@ == old(acts)@.push(a),
        effects(final(acts)@) == effects(old(acts)@).push(a@),
{
    acts.push(a);
    proof {
        assert(effects(final(acts)@) =~= effects(old(acts)@).push(a@));
    }
}

/// A message to each student who moved up, with their new place.
fn notify_moved(moved: &Vec<(u32, u32)>) -> (acts: Vec<Action>)
    ensures
        effects(acts@) == notices(moved@),
{
    let mut acts: Vec<Action> = Vec::new();
    let mut i: usize = 0;
    while i < moved.len()
        invariant
            i <= moved.len(),
            effects(acts@) == notices(moved@.take(i as int)),
        decreases moved.len() - i,
    {
        let (table, place) = moved[i];
        let note = output(OutType::Index, decimal_string(place));
        push_action(&mut acts, Action::Notify(table, note));
        proof {
            assert(moved@.take(i + 1) =~= moved@.take(i as int).push(moved@[i as int]));
            assert(notices(moved@.take(i + 1)) =~= notices(moved@.take(i as int)).push(
                Effect::Notify(table, msg(OutType::Index, decimal(place as nat))),
            ));
        }
        i = i + 1;
    }
    proof {
        assert(moved@.take(moved.len() as int) =~= moved@);
    }
    acts
}

/// The new listing of the queue, for every teaching assistant.
fn broadcast_listing(board: &QueueBoard) -> (a: Action)
    requires
        board.wf(),
    ensures
        a@ == listing(board@),
{
    Action::Broadcast(output(OutType::Queue, board.build_queue()))
}

/// A student at `table` with `task` joins the queue, and is told their place; every
/// teaching assistant gets the new listing. A student already in the queue is told so,
/// and nothing changes.
pub fn join_queue(board: &mut QueueBoard, table: u32, task: &str) -> (acts: Vec<Action>)
    requires
        old(board).wf(),
        table < SLOTS,
    ensures
        final(board).wf(),
        (final(board)@, effects(acts@)) == join_step(old(board)@, table, task@),
{
    let mut acts: Vec<Action> = Vec::new();
    match board.join(table, task) {
        None => {
            push_action(&mut acts, Action::Reply(error_output("Allredy in queue")));
        },
        Some(value) => {
            push_action(&mut acts, Action::Reply(output(OutType::Index, decimal_string(value))));
            push_action(&mut acts, broadcast_listing(board));
        },
    }
    proof {
        assert(effects(acts@) =~= join_step(old(board)@, table, task@).1);
    }
    acts
}

/// The student at `table` asks where they stand: their place, the assistant who helps
/// them, or, where they are not in the queue, that they are not, after which their
/// connection closes.
pub fn poll_queue(board: &QueueBoard, table: u32) -> (acts: Vec<Action>)
    requires
        board.wf(),
        table < SLOTS,
    ensures
        effects(acts@) == poll_step(board@, table),
{
    let mut acts: Vec<Action> = Vec::new();
    match board.standing(table) {
        Standing::Waiting(value) => {
            push_action(&mut acts, Action::Reply(output(OutType::Index, decimal_string(value))));
        },
        Standing::Helped(name) => {
            let data = text_then("Getting help from ", name.as_str());
            push_action(&mut acts, Action::Reply(output(OutType::Helping, data)));
        },
        Standing::Absent => {
            let data = String::from_str("Not in queue");
            push_action(&mut acts, Action::Reply(output(OutType::NotQueue, data)));
            push_action(&mut acts, Action::DisconnectSelf);
        },
    }
    proof {
        assert(effects(acts@) =~= poll_step(board@, table));
    }
    acts
}

/// The teaching assistant `name` starts helping the student at `table`. Everyone who
/// moved up in line is told their new place, the assistant is told whom they help,
/// every assistant gets the new listing, and the student is told who helps them. A
/// student not in the queue, or helped already, is refused with a message, and nothing
/// changes.
pub fn help_student(board: &mut QueueBoard, name: &str, table: u32) -> (acts: Vec<Action>)
    requires
        old(board).wf(),
        table < SLOTS,
    ensures
        final(board).wf(),
        (final(board)@, effects(acts@)) == help_step(old(board)@, table, name@),
{
    proof {
        board.lemma_valid();
    }
    let mut acts: Vec<Action>;
    match board.help(table, name) {
        Err(QueueError::NotInQueue) => {
            acts = Vec::new();
            push_action(&mut acts, Action::Reply(error_output("Student not in queue")));
        },
        Err(QueueError::AlreadyHelped) => {
            acts = Vec::new();
            push_action(&mut acts, Action::Reply(error_output("Student already getting help")));
        },
        Ok(moved) => {
            acts = notify_moved(&moved);
            let info = text_then("Now helping ", decimal_string(table).as_str());
            push_action(&mut acts, Action::Reply(output(OutType::Info, info)));
            push_action(&mut acts, broadcast_listing(board));
            let helping = text_then("Getting help from ", name);
            push_action(&mut acts, Action::Notify(table, output(OutType::Helping, helping)));
        },
    }
    proof {
        assert(effects(acts@) =~= help_step(old(board)@, table, name@).1);
    }
    acts
}

/// A teaching assistant takes the student at `table` out of the queue. Everyone who
/// moved up in line is told their new place, the assistant is told whom they removed,
/// the student is told they are out of the queue and their connection closes, and every
/// assistant gets the new listing. A student not in the queue is refused with a
/// message, and nothing changes.
pub fn remove_student(board: &mut QueueBoard, table: u32) -> (acts: Vec<Action>)
    requires
        old(board).wf(),
        table < SLOTS,
    ensures
        final(board).wf(),
        (final(board)@, effects(acts@)) == remove_step(old(board)@, table),
{
    proof {
        board.lemma_valid();
    }
    let mut acts: Vec<Action>;
    match board.remove(table) {
        Err(_) => {
            acts = Vec::new();
            push_action(&mut acts, Action::Reply(error_output("Student not in queue")));
        },
        Ok(moved) => {
            acts = notify_moved(&moved);
            let info = text_then("Removing student ", decimal_string(table).as_str());
            push_action(&mut acts, Action::Reply(output(OutType::Info, info)));
            let gone = String::from_str("Not in queue");
            push_action(&mut acts, Action::Notify(table, output(OutType::NotQueue, gone)));
            push_action(&mut acts, Action::Disconnect(table));
            push_action(&mut acts, broadcast_listing(board));
        },
    }
    proof {
        if old(board)@.seated(table) && !seated_in(old(board)@.waiting, table) {
            assert(notices(Seq::<(u32, u32)>::empty()) =~= Seq::<Effect>::empty());
        }
        assert(effects(acts@) =~= remove_step(old(board)@, table).1);
    }
    acts
}

/// The student at `table` leaves the queue, from whichever list holds them. Everyone who
/// moved up in line is told their new place, the student is told they are out of the
/// queue, every assistant gets the new listing, and the student's connection closes. A
/// student not in the queue is told so, and nothing changes.
pub fn leave_queue(board: &mut QueueBoard, table: u32) -> (acts: Vec<Action>)
    requires
        old(board).wf(),
        table < SLOTS,
    ensures
        final(board).wf(),
        (final(board)@, effects(acts@)) == leave_step(old(board)@, table),
{
    proof {
        board.lemma_valid();
    }
    let mut acts: Vec<Action>;
    match board.remove(table) {
        Err(_) => {
            acts = Vec::new();
            push_action(&mut acts, Action::Reply(error_output("Not in queue")));
        },
        Ok(moved) => {
            acts = notify_moved(&moved);
            let gone = String::from_str("Not in queue");
            push_action(&mut acts, Action::Reply(output(OutType::NotQueue, gone)));
            push_action(&mut acts, broadcast_listing(board));
            push_action(&mut acts, Action::DisconnectSelf);
        },
    }
    proof {
        if old(board)@.seated(table) && !seated_in(old(board)@.waiting, table) {
            assert(notices(Seq::<(u32, u32)>::empty()) =~= Seq::<Effect>::empty());
        }
        assert(effects(acts@) =~= leave_step(old(board)@, table).1);
    }
    acts
}

/// A teaching assistant asks for the listing of the queue.
pub fn get_queue(board: &QueueBoard) -> (acts: Vec<Action>)
    requires
        board.wf(),
    ensures
        effects(acts@) == get_queue_step(board@),
{
    let mut acts: Vec<Action> = Vec::new();
    push_action(&mut acts, Action::Reply(output(OutType::Queue, board.build_queue())));
    proof {
        assert(effects(acts@) =~= get_queue_step(board@));
    }
    acts
}

/// Carries out a message from the student at `table`, who came with `task`: `command`
/// is the command it holds, or none where it does not parse as one.
pub fn handle_student_command(
    board: &mut QueueBoard,
    table: u32,
    task: &str,
    command: Option<&str>,
) -> (acts: Vec<Action>)
    requires
        old(board).wf(),
        table < SLOTS,
    ensures
        final(board).wf(),
        (final(board)@, effects(acts@)) == student_step(
            old(board)@,
            table,
            task@,
            match command {
                Some(c) => Some(c@),
                None => None,
            },
        ),
{
    match command {
        None => {
            let mut acts: Vec<Action> = Vec::new();
            push_action(&mut acts, Action::ReplyText(String::from_str("Not text")));
            proof {
                assert(effects(acts@) =~= not_a_command());
            }
            acts
        },
        Some(c) => {
            if same_text(c, "poll") {
                poll_queue(board, table)
            } else if same_text(c, "join") {
                join_queue(board, table, task)
            } else if same_text(c, "leave") {
                leave_queue(board, table)
            } else {
                let mut acts: Vec<Action> = Vec::new();
                push_action(&mut acts, Action::Reply(error_output("Invalid command")));
                proof {
                    assert(effects(acts@) =~= invalid_command());
                }
                acts
            }
        },
    }
}

/// Carries out a message from the teaching assistant `name`: `command` is the command
/// it holds, or none where it does not parse as one, and `argument` its table number.
/// Helping or removing needs an argument that names a slot of the room.
pub fn handle_ta_command(
    board: &mut QueueBoard,
    name: &str,
    command: Option<&str>,
    argument: u8,
) -> (acts: Vec<Action>)
    requires
        old(board).wf(),
        needs_slot(
            match command {
                Some(c) => Some(c@),
                None => None,
            },
        ) ==> argument < SLOTS,
    ensures
        final(board).wf(),
        (final(board)@, effects(acts@)) == ta_step(
            old(board)@,
            name@,
            match command {
                Some(c) => Some(c@),
                None => None,
            },
            argument,
        ),
{
    match command {
        None => {
            let mut acts: Vec<Action> = Vec::new();
            push_action(&mut acts, Action::ReplyText(String::from_str("Not text")));
            proof {
                assert(effects(acts@) =~= not_a_command());
            }
            acts
        },
        Some(c) => {
            if same_text(c, "help") {
                help_student(board, name, argument as u32)
            } else if same_text(c, "remove") {
                remove_student(board, argument as u32)
            } else if same_text(c, "get_queue") {
                get_queue(board)
            } else {
                let mut acts: Vec<Action> = Vec::new();
                push_action(&mut acts, Action::Reply(error_output("Invalid command")));
                proof {
                    assert(effects(acts@) =~= invalid_command());
                }
                acts
            }
        },
    }
}

} // verus!
