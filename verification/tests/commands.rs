use ta_queue::protocol::{
    get_queue, handle_student_command, handle_ta_command, help_student, join_queue, poll_queue,
    remove_student, Action, OutType, Output,
};
use ta_queue::queue::QueueBoard;

fn out(kind: OutType, data: &str) -> Output {
    Output { error: String::new(), data: data.to_string(), message_type: kind }
}

fn err(e: &str) -> Output {
    Output { error: e.to_string(), data: String::new(), message_type: OutType::Error }
}

fn listing(board: &QueueBoard) -> Action {
    Action::Broadcast(out(OutType::Queue, &board.build_queue()))
}

#[test]
fn student_join_and_poll() {
    let mut board = QueueBoard::new();
    let acts = handle_student_command(&mut board, 4, "Task 1", Some("join"));
    assert_eq!(
        acts,
        vec![
            Action::Reply(out(OutType::Index, "1")),
            Action::Broadcast(out(
                OutType::Queue,
                "[{\"index\": \"1\", \"table_number\": \"4\",\"task\": \"Task 1\"}]"
            )),
        ]
    );
    let acts = handle_student_command(&mut board, 9, "Task 2", Some("join"));
    assert_eq!(acts, vec![Action::Reply(out(OutType::Index, "2")), listing(&board)]);
    assert_eq!(
        handle_student_command(&mut board, 9, "Task 2", Some("poll")),
        vec![Action::Reply(out(OutType::Index, "2"))]
    );
}

#[test]
fn student_join_twice_is_refused() {
    let mut board = QueueBoard::new();
    join_queue(&mut board, 4, "a");
    let before = board.build_queue();
    assert_eq!(join_queue(&mut board, 4, "a"), vec![Action::Reply(err("Allredy in queue"))]);
    assert_eq!(board.build_queue(), before);
}

#[test]
fn poll_when_absent_closes_the_connection() {
    let board = QueueBoard::new();
    assert_eq!(
        poll_queue(&board, 3),
        vec![Action::Reply(out(OutType::NotQueue, "Not in queue")), Action::DisconnectSelf]
    );
}

#[test]
fn student_bad_commands() {
    let mut board = QueueBoard::new();
    assert_eq!(
        handle_student_command(&mut board, 3, "t", Some("quit")),
        vec![Action::Reply(err("Invalid command"))]
    );
    assert_eq!(
        handle_student_command(&mut board, 3, "t", None),
        vec![Action::ReplyText("Not text".to_string())]
    );
    assert_eq!(board.build_queue(), "[]");
}

#[test]
fn ta_help_notifies_everyone() {
    let mut board = QueueBoard::new();
    join_queue(&mut board, 2, "a");
    join_queue(&mut board, 5, "b");
    join_queue(&mut board, 7, "c");
    let acts = handle_ta_command(&mut board, "Ola", Some("help"), 2);
    assert_eq!(
        acts,
        vec![
            Action::Notify(5, out(OutType::Index, "1")),
            Action::Notify(7, out(OutType::Index, "2")),
            Action::Reply(out(OutType::Info, "Now helping 2")),
            listing(&board),
            Action::Notify(2, out(OutType::Helping, "Getting help from Ola")),
        ]
    );
    assert_eq!(
        poll_queue(&board, 2),
        vec![Action::Reply(out(OutType::Helping, "Getting help from Ola"))]
    );
    assert_eq!(poll_queue(&board, 7), vec![Action::Reply(out(OutType::Index, "2"))]);
}

#[test]
fn ta_help_refusals() {
    let mut board = QueueBoard::new();
    assert_eq!(
        help_student(&mut board, "Ola", 3),
        vec![Action::Reply(err("Student not in queue"))]
    );
    join_queue(&mut board, 3, "a");
    help_student(&mut board, "Ola", 3);
    assert_eq!(
        help_student(&mut board, "Kari", 3),
        vec![Action::Reply(err("Student already getting help"))]
    );
}

#[test]
fn ta_remove_waiting_and_helped() {
    let mut board = QueueBoard::new();
    join_queue(&mut board, 2, "a");
    join_queue(&mut board, 5, "b");
    help_student(&mut board, "Ola", 5);
    let acts = remove_student(&mut board, 2);
    assert_eq!(
        acts,
        vec![
            Action::Reply(out(OutType::Info, "Removing student 2")),
            Action::Notify(2, out(OutType::NotQueue, "Not in queue")),
            Action::Disconnect(2),
            listing(&board),
        ]
    );
    let acts = handle_ta_command(&mut board, "Ola", Some("remove"), 5);
    assert_eq!(
        acts,
        vec![
            Action::Reply(out(OutType::Info, "Removing student 5")),
            Action::Notify(5, out(OutType::NotQueue, "Not in queue")),
            Action::Disconnect(5),
            Action::Broadcast(out(OutType::Queue, "[]")),
        ]
    );
    assert_eq!(remove_student(&mut board, 5), vec![Action::Reply(err("Student not in queue"))]);
}

#[test]
fn ta_remove_moves_followers_up() {
    let mut board = QueueBoard::new();
    join_queue(&mut board, 1, "a");
    join_queue(&mut board, 2, "b");
    let acts = remove_student(&mut board, 1);
    assert_eq!(acts[0], Action::Notify(2, out(OutType::Index, "1")));
    assert_eq!(acts.len(), 5);
}

#[test]
fn ta_get_queue_and_bad_commands() {
    let mut board = QueueBoard::new();
    join_queue(&mut board, 12, "Oppgave 4");
    assert_eq!(
        handle_ta_command(&mut board, "Ola", Some("get_queue"), 200),
        vec![Action::Reply(out(
            OutType::Queue,
            "[{\"index\": \"1\", \"table_number\": \"12\",\"task\": \"Oppgave 4\"}]"
        ))]
    );
    assert_eq!(get_queue(&board), handle_ta_command(&mut board, "x", Some("get_queue"), 0));
    assert_eq!(
        handle_ta_command(&mut board, "Ola", Some("kick"), 1),
        vec![Action::Reply(err("Invalid command"))]
    );
    assert_eq!(
        handle_ta_command(&mut board, "Ola", None, 1),
        vec![Action::ReplyText("Not text".to_string())]
    );
}

#[test]
fn help_table_zero_is_not_in_queue() {
    let mut board = QueueBoard::new();
    assert_eq!(
        handle_ta_command(&mut board, "Ola", Some("help"), 0),
        vec![Action::Reply(err("Student not in queue"))]
    );
}

#[test]
fn student_leave_while_waiting() {
    let mut board = QueueBoard::new();
    join_queue(&mut board, 2, "a");
    join_queue(&mut board, 5, "b");
    join_queue(&mut board, 7, "c");
    let acts = handle_student_command(&mut board, 2, "a", Some("leave"));
    assert_eq!(
        acts,
        vec![
            Action::Notify(5, out(OutType::Index, "1")),
            Action::Notify(7, out(OutType::Index, "2")),
            Action::Reply(out(OutType::NotQueue, "Not in queue")),
            listing(&board),
            Action::DisconnectSelf,
        ]
    );
    assert_eq!(poll_queue(&board, 5), vec![Action::Reply(out(OutType::Index, "1"))]);
    assert_eq!(
        board.build_queue(),
        "[{\"index\": \"1\", \"table_number\": \"5\",\"task\": \"b\"}, \
         {\"index\": \"2\", \"table_number\": \"7\",\"task\": \"c\"}]"
    );
}

#[test]
fn student_leave_while_helped() {
    let mut board = QueueBoard::new();
    join_queue(&mut board, 3, "a");
    help_student(&mut board, "Ola", 3);
    let acts = handle_student_command(&mut board, 3, "a", Some("leave"));
    assert_eq!(
        acts,
        vec![
            Action::Reply(out(OutType::NotQueue, "Not in queue")),
            Action::Broadcast(out(OutType::Queue, "[]")),
            Action::DisconnectSelf,
        ]
    );
}

#[test]
fn student_leave_when_absent_is_refused() {
    let mut board = QueueBoard::new();
    join_queue(&mut board, 9, "x");
    let before = board.build_queue();
    assert_eq!(
        handle_student_command(&mut board, 4, "t", Some("leave")),
        vec![Action::Reply(err("Not in queue"))]
    );
    assert_eq!(board.build_queue(), before);
}
