use ta_queue::cookie::access_token;
use ta_queue::protocol::{
    handle_student_command, help_student, join_queue, poll_queue, remove_student, Action,
    OutType, Output,
};
use ta_queue::queue::{QueueBoard, Standing};

fn out(kind: OutType, data: &str) -> Output {
    Output { error: String::new(), data: data.to_string(), message_type: kind }
}

#[test]
fn remove_notice_matches_the_next_poll() {
    let mut board = QueueBoard::new();
    join_queue(&mut board, 8, "a");
    let acts = remove_student(&mut board, 8);
    let told = Action::Notify(8, out(OutType::NotQueue, "Not in queue"));
    assert!(acts.contains(&told));
    assert!(acts.contains(&Action::Disconnect(8)));
    assert_eq!(
        poll_queue(&board, 8),
        vec![Action::Reply(out(OutType::NotQueue, "Not in queue")), Action::DisconnectSelf]
    );
}

#[test]
fn moved_up_notices_match_the_next_poll() {
    let mut board = QueueBoard::new();
    for t in [3u32, 4, 5, 6] {
        join_queue(&mut board, t, "x");
    }
    let acts = remove_student(&mut board, 4);
    for act in &acts {
        if let Action::Notify(t, o) = act {
            if o.message_type == OutType::Index {
                assert_eq!(poll_queue(&board, *t), vec![Action::Reply(out(OutType::Index, &o.data))]);
            }
        }
    }
    assert_eq!(poll_queue(&board, 3), vec![Action::Reply(out(OutType::Index, "1"))]);
}

#[test]
fn help_then_remove_equals_remove() {
    let mut a = QueueBoard::new();
    let mut b = QueueBoard::new();
    for t in [1u32, 2, 3] {
        a.join(t, "t");
        b.join(t, "t");
    }
    a.help(2, "Ann").unwrap();
    a.remove(2).unwrap();
    b.remove(2).unwrap();
    assert_eq!(a.build_queue(), b.build_queue());
    for t in 0..31u32 {
        assert_eq!(a.standing(t), b.standing(t));
    }
}

#[test]
fn listing_has_a_line_per_student() {
    let mut board = QueueBoard::new();
    for t in [10u32, 20, 30, 1] {
        board.join(t, "t");
    }
    board.help(20, "Ann").unwrap();
    let listing = board.build_queue();
    assert_eq!(listing.matches("\"index\"").count(), 4);
    assert!(listing.starts_with("[{\"index\": \"0\", \"table_number\": \"20\""));
}

#[test]
fn join_reply_matches_the_next_poll() {
    let mut board = QueueBoard::new();
    join_queue(&mut board, 2, "a");
    let acts = handle_student_command(&mut board, 9, "b", Some("join"));
    assert_eq!(acts[0], Action::Reply(out(OutType::Index, "2")));
    assert_eq!(poll_queue(&board, 9), vec![Action::Reply(out(OutType::Index, "2"))]);
}

#[test]
fn help_notice_matches_the_next_poll() {
    let mut board = QueueBoard::new();
    join_queue(&mut board, 6, "a");
    let acts = help_student(&mut board, "Kari", 6);
    assert_eq!(
        acts.last(),
        Some(&Action::Notify(6, out(OutType::Helping, "Getting help from Kari")))
    );
    assert_eq!(board.standing(6), Standing::Helped("Kari".to_string()));
}

#[test]
fn marker_laws_on_examples() {
    assert_eq!(access_token("session=1; lang=no"), None);
    assert_eq!(access_token("access_token_cookie=eyJ.x.y"), Some("eyJ.x.y".to_string()));
}

#[test]
fn statuses_move_only_forward_or_out() {
    let mut board = QueueBoard::new();
    assert_eq!(board.standing(4), Standing::Absent);
    board.join(4, "t");
    assert_eq!(board.standing(4), Standing::Waiting(1));
    board.help(4, "Ann").unwrap();
    assert_eq!(board.standing(4), Standing::Helped("Ann".to_string()));
    assert_eq!(board.join(4, "t"), None);
    assert!(board.help(4, "Bob").is_err());
    assert_eq!(board.standing(4), Standing::Helped("Ann".to_string()));
    assert!(board.help(6, "Bob").is_err());
    assert_eq!(board.standing(6), Standing::Absent);
    board.remove(4).unwrap();
    assert_eq!(board.standing(4), Standing::Absent);
}
