use ta_queue::queue::{QueueBoard, QueueError, Standing};
use ta_queue::text::decimal_string;

#[test]
fn decimal_string_writes_digits() {
    assert_eq!(decimal_string(0), "0");
    assert_eq!(decimal_string(7), "7");
    assert_eq!(decimal_string(10), "10");
    assert_eq!(decimal_string(305), "305");
    assert_eq!(decimal_string(u32::MAX), "4294967295");
    for n in [1u32, 9, 99, 100, 65536, 123456789] {
        assert_eq!(decimal_string(n), n.to_string());
    }
}

#[test]
fn new_board_is_empty() {
    let board = QueueBoard::new();
    for t in 0..31u32 {
        assert_eq!(board.standing(t), Standing::Absent);
    }
    assert_eq!(board.build_queue(), "[]");
}

#[test]
fn join_gives_consecutive_places() {
    let mut board = QueueBoard::new();
    assert_eq!(board.join(5, "Task 1"), Some(1));
    assert_eq!(board.join(7, "Task 2"), Some(2));
    assert_eq!(board.join(1, "Task 3"), Some(3));
    assert_eq!(board.standing(5), Standing::Waiting(1));
    assert_eq!(board.standing(7), Standing::Waiting(2));
    assert_eq!(board.standing(1), Standing::Waiting(3));
    assert_eq!(board.standing(2), Standing::Absent);
}

#[test]
fn join_twice_is_refused_and_changes_nothing() {
    let mut board = QueueBoard::new();
    assert_eq!(board.join(4, "a"), Some(1));
    let before = board.build_queue();
    assert_eq!(board.join(4, "b"), None);
    assert_eq!(board.build_queue(), before);
    assert_eq!(board.help(4, "Ann"), Ok(vec![]));
    assert_eq!(board.join(4, "c"), None);
    assert_eq!(board.standing(4), Standing::Helped("Ann".to_string()));
}

#[test]
fn help_moves_followers_up() {
    let mut board = QueueBoard::new();
    board.join(3, "x");
    board.join(8, "y");
    board.join(12, "z");
    assert_eq!(board.help(8, "Bob"), Ok(vec![(12, 2)]));
    assert_eq!(board.standing(3), Standing::Waiting(1));
    assert_eq!(board.standing(12), Standing::Waiting(2));
    assert_eq!(board.standing(8), Standing::Helped("Bob".to_string()));
    assert_eq!(board.help(3, "Cid"), Ok(vec![(12, 1)]));
    assert_eq!(board.standing(12), Standing::Waiting(1));
}

#[test]
fn help_refusals() {
    let mut board = QueueBoard::new();
    assert_eq!(board.help(9, "Ann"), Err(QueueError::NotInQueue));
    board.join(9, "t");
    assert_eq!(board.help(9, "Ann"), Ok(vec![]));
    assert_eq!(board.help(9, "Bob"), Err(QueueError::AlreadyHelped));
    assert_eq!(board.standing(9), Standing::Helped("Ann".to_string()));
    assert_eq!(board.help(0, "Ann"), Err(QueueError::NotInQueue));
}

#[test]
fn remove_from_either_list() {
    let mut board = QueueBoard::new();
    assert_eq!(board.remove(6), Err(QueueError::NotInQueue));
    board.join(6, "a");
    board.join(2, "b");
    board.join(30, "c");
    assert_eq!(board.remove(6), Ok(vec![(2, 1), (30, 2)]));
    assert_eq!(board.standing(6), Standing::Absent);
    assert_eq!(board.help(2, "Ann"), Ok(vec![(30, 1)]));
    assert_eq!(board.remove(2), Ok(vec![]));
    assert_eq!(board.standing(2), Standing::Absent);
    assert_eq!(board.standing(30), Standing::Waiting(1));
    assert_eq!(board.remove(30), Ok(vec![]));
    assert_eq!(board.build_queue(), "[]");
}

#[test]
fn remove_last_and_middle_keeps_links() {
    let mut board = QueueBoard::new();
    for t in 1..=10u32 {
        assert_eq!(board.join(t, "task"), Some(t));
    }
    assert_eq!(board.remove(10), Ok(vec![]));
    assert_eq!(board.remove(5), Ok(vec![(6, 5), (7, 6), (8, 7), (9, 8)]));
    assert_eq!(board.join(10, "again"), Some(9));
    assert_eq!(board.standing(10), Standing::Waiting(9));
    assert_eq!(board.help(1, "A"), Ok(vec![(2, 1), (3, 2), (4, 3), (6, 4), (7, 5), (8, 6), (9, 7), (10, 8)]));
    assert_eq!(board.help(9, "B"), Ok(vec![(10, 7)]));
    assert_eq!(board.remove(1), Ok(vec![]));
    assert_eq!(board.standing(9), Standing::Helped("B".to_string()));
}

#[test]
fn build_queue_lists_helped_then_waiting() {
    let mut board = QueueBoard::new();
    board.join(5, "Task 1");
    board.join(7, "Task 2");
    board.join(11, "Task 3");
    board.help(5, "Ann");
    assert_eq!(
        board.build_queue(),
        "[{\"index\": \"0\", \"table_number\": \"5\",\"task\": \"\"}, \
         {\"index\": \"1\", \"table_number\": \"7\",\"task\": \"Task 2\"}, \
         {\"index\": \"2\", \"table_number\": \"11\",\"task\": \"Task 3\"}]"
    );
}

#[test]
fn build_queue_one_waiting() {
    let mut board = QueueBoard::new();
    board.join(30, "Lab");
    assert_eq!(
        board.build_queue(),
        "[{\"index\": \"1\", \"table_number\": \"30\",\"task\": \"Lab\"}]"
    );
}

#[test]
fn join_then_remove_restores_the_queue() {
    let mut board = QueueBoard::new();
    board.join(3, "a");
    board.join(4, "b");
    board.help(3, "Ann");
    let before = board.build_queue();
    assert_eq!(board.join(20, "c"), Some(2));
    assert_eq!(board.remove(20), Ok(vec![]));
    assert_eq!(board.build_queue(), before);
    assert_eq!(board.standing(20), Standing::Absent);
}

#[test]
fn every_slot_fills_and_empties() {
    let mut board = QueueBoard::new();
    for t in 0..31u32 {
        assert_eq!(board.join(t, "t"), Some(t + 1));
    }
    for t in 0..31u32 {
        assert_eq!(board.standing(t), Standing::Waiting(t + 1));
    }
    for t in 0..31u32 {
        let moved = board.help(t, "TA").unwrap();
        assert_eq!(moved.len() as u32, 30 - t);
    }
    for t in (0..31u32).rev() {
        assert_eq!(board.remove(t), Ok(vec![]));
    }
    assert_eq!(board.build_queue(), "[]");
}
