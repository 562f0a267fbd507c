use sectora::connection::{
    frames_of, socket_path, Assembly, Progress, Sending, Turn, DATAGRAM_SIZE, PIECE_SIZE,
};
use sectora::error::ParseMessageError;
use sectora::message::{DaemonMessage, DividedMessage};

fn pieces(msg: &str, size: usize) -> Vec<(bool, String)> {
    DividedMessage::new(msg, size).into_iter().map(|f| (f.cont, f.message)).collect()
}

fn piece(cont: bool, s: &str) -> (bool, String) {
    (cont, String::from(s))
}

#[test]
fn a_short_message_is_one_frame() {
    assert_eq!(pieces("abc", 4), vec![piece(false, "abc")]);
    assert_eq!(pieces("abcd", 4), vec![piece(false, "abcd")]);
    assert_eq!(pieces("", 4), vec![piece(false, "")]);
    assert_eq!(pieces("", 0), vec![piece(false, "")]);
}

#[test]
fn a_long_message_is_cut_into_pieces_of_the_size() {
    assert_eq!(pieces("abcde", 4), vec![piece(true, "abcd"), piece(false, "e")]);
    assert_eq!(
        pieces("abcdefgh", 3),
        vec![piece(true, "abc"), piece(true, "def"), piece(false, "gh")]
    );
    assert_eq!(pieces("abcdef", 3), vec![piece(true, "abc"), piece(false, "def")]);
    assert_eq!(pieces("ab", 1), vec![piece(true, "a"), piece(false, "b")]);
}

#[test]
fn no_character_is_cut() {
    assert_eq!(pieces("aé", 2), vec![piece(true, "a"), piece(false, "é")]);
    assert_eq!(pieces("éa", 2), vec![piece(true, "é"), piece(false, "a")]);
    assert_eq!(pieces("aéb", 3), vec![piece(true, "aé"), piece(false, "b")]);
    assert_eq!(pieces("€€", 3), vec![piece(true, "€"), piece(false, "€")]);
    assert_eq!(pieces("€€", 5), vec![piece(true, "€"), piece(false, "€")]);
    assert_eq!(pieces("€€", 6), vec![piece(false, "€€")]);
}

#[test]
fn a_character_that_is_wider_than_the_size_goes_alone() {
    assert_eq!(pieces("€a", 1), vec![piece(true, "€"), piece(false, "a")]);
    assert_eq!(pieces("ab", 0), vec![piece(true, "a"), piece(false, "b")]);
    assert_eq!(pieces("😀", 2), vec![piece(false, "😀")]);
}

#[test]
fn frames_are_written_and_read() {
    let f = DividedMessage { cont: true, message: String::from("d:pw:a") };
    assert_eq!(f.to_string(), "1:d:pw:a");
    let f = DividedMessage { cont: false, message: String::from("") };
    assert_eq!(f.to_string(), "0:");
    let f = DividedMessage::from_str("1:abc:def").unwrap();
    assert_eq!((f.cont, f.message.as_str()), (true, "abc:def"));
    let f = DividedMessage::from_str("0:").unwrap();
    assert_eq!((f.cont, f.message.as_str()), (false, ""));
    for text in ["", "0", "2:abc", ":0:", "d:success"] {
        assert_eq!(
            DividedMessage::from_str(text).err(),
            Some(ParseMessageError::ParseClientMessageError)
        );
    }
}

#[test]
fn the_sizes_of_the_datagram() {
    assert_eq!(DATAGRAM_SIZE, 4096);
    assert_eq!(PIECE_SIZE + 2, DATAGRAM_SIZE);
}

fn long_reply() -> DaemonMessage {
    let mut keys = String::new();
    for i in 0..400 {
        keys.push_str(&format!("ssh-ed25519 AAAAC3NzaC1lZDI1NTE5AAAAI{:04} user{}@host\n", i, i));
    }
    DaemonMessage::Key { keys }
}

#[test]
fn a_reply_arrives_whole() {
    let reply = long_reply();
    let frames = frames_of(&reply, PIECE_SIZE);
    assert!(frames.len() > 1);
    let mut got = Assembly::new();
    for (i, frame) in frames.iter().enumerate() {
        assert!(frame.len() <= DATAGRAM_SIZE);
        match got.accept(frame) {
            Progress::More => assert!(i + 1 < frames.len()),
            Progress::Done(Ok(m)) => {
                assert_eq!(i + 1, frames.len());
                assert_eq!(m.to_string(), reply.to_string());
            }
            Progress::Done(Err(e)) => panic!("unexpected {:?}", e),
        }
    }
}

#[test]
fn a_short_reply_is_one_datagram() {
    let frames = frames_of(&DaemonMessage::Success, PIECE_SIZE);
    assert_eq!(frames, vec!["0:d:success"]);
    let mut got = Assembly::new();
    match got.accept(&frames[0]) {
        Progress::Done(Ok(DaemonMessage::Success)) => {}
        other => panic!("unexpected {:?}", other),
    }
}

#[test]
fn what_is_no_frame_ends_the_exchange() {
    let mut got = Assembly::new();
    match got.accept("d:success") {
        Progress::Done(Err(e)) => assert_eq!(e, ParseMessageError::ParseClientMessageError),
        other => panic!("unexpected {:?}", other),
    }
}

#[test]
fn without_the_last_frame_there_is_no_reply() {
    let nothing = Assembly::new();
    assert_eq!(nothing.give_up().err(), Some(ParseMessageError::ParseDaemonMessageError));
    let mut got = Assembly::new();
    assert!(matches!(got.accept("1:d:success"), Progress::More));
    assert_eq!(got.give_up().err(), Some(ParseMessageError::ParseDaemonMessageError));
    let mut got = Assembly::new();
    assert!(matches!(got.accept("1:d:key:ssh-rsa A"), Progress::More));
    assert!(matches!(got.accept("1:\nssh-rsa B"), Progress::More));
    assert_eq!(got.give_up().err(), Some(ParseMessageError::ParseDaemonMessageError));
    match got.accept("0:\nssh-rsa C") {
        Progress::Done(Ok(DaemonMessage::Key { keys })) => {
            assert_eq!(keys, "ssh-rsa A\nssh-rsa B\nssh-rsa C")
        }
        other => panic!("unexpected {:?}", other),
    }
    assert!(matches!(got.give_up(), Ok(DaemonMessage::Key { .. })));
    match got.accept("1:more") {
        Progress::Done(Ok(DaemonMessage::Key { keys })) => {
            assert_eq!(keys, "ssh-rsa A\nssh-rsa B\nssh-rsa C")
        }
        other => panic!("unexpected {:?}", other),
    }
}

#[test]
fn a_reply_in_two_frames() {
    let mut got = Assembly::new();
    assert!(matches!(got.accept("1:d:suc"), Progress::More));
    match got.accept("0:cess") {
        Progress::Done(Ok(DaemonMessage::Success)) => {}
        other => panic!("unexpected {:?}", other),
    }
}

#[test]
fn the_socket_of_a_client() {
    assert_eq!(socket_path("/tmp/sectora", 4711), "/tmp/sectora/4711");
}

fn sent(turn: Turn) -> Option<String> {
    match turn {
        Turn::Send(frame) => Some(frame),
        _ => None,
    }
}

#[test]
fn a_long_reply_is_sent_piece_by_piece() {
    let reply = long_reply();
    let frames = frames_of(&reply, PIECE_SIZE);
    let mut sending = Sending::new(&reply, PIECE_SIZE);
    assert!(!sending.done());
    assert!(matches!(sending.next("c:cont", true), Turn::Abandon));
    assert_eq!(sending.first(), Some(frames[0].clone()));
    assert_eq!(sending.first(), None);
    for frame in &frames[1..] {
        assert!(!sending.done());
        assert_eq!(sent(sending.next("c:cont", true)), Some(frame.clone()));
    }
    assert!(sending.done());
    assert!(matches!(sending.next("c:cont", true), Turn::Abandon));
}

#[test]
fn the_rest_of_a_reply_is_given_up_where_it_is_not_asked_for() {
    let reply = long_reply();
    let mut sending = Sending::new(&reply, PIECE_SIZE);
    assert!(sending.first().is_some());
    assert!(matches!(sending.next("c:pw:name=alice", true), Turn::Abandon));
    assert!(sending.done());
    assert!(matches!(sending.next("c:cont", true), Turn::Abandon));
    let mut sending = Sending::new(&DaemonMessage::Success, PIECE_SIZE);
    assert_eq!(sending.first(), Some(String::from("0:d:success")));
    assert!(sending.done());
}

#[test]
fn what_another_caller_sends_waits_until_the_reply_is_through() {
    let reply = long_reply();
    let frames = frames_of(&reply, PIECE_SIZE);
    let mut sending = Sending::new(&reply, PIECE_SIZE);
    assert!(sending.first().is_some());
    assert!(matches!(sending.next("c:pw:name=alice", false), Turn::Defer));
    assert!(matches!(sending.next("c:cont", false), Turn::Defer));
    assert!(!sending.done());
    assert_eq!(sent(sending.next("c:cont", true)), Some(frames[1].clone()));
}
