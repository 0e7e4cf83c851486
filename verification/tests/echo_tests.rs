use socket::echo::build_response;
use socket::echo::worker_step;
use socket::echo::ReadEvent;
use socket::echo::WorkerAction;

#[test]
fn hello_gets_tagged_echo() {
    let tag: Vec<u8> = b"12345".to_vec();
    let msg: Vec<u8> = b"hello".to_vec();
    let r = build_response(&tag, &msg);
    assert_eq!(r, b"(12345)hello".to_vec());
}

#[test]
fn worker_answers_data_with_echo() {
    let tag: Vec<u8> = b"12345".to_vec();
    match worker_step(&tag, ReadEvent::Data(b"hello".to_vec())) {
        WorkerAction::Respond(r) => assert_eq!(r, b"(12345)hello".to_vec()),
        WorkerAction::Finish => panic!("data must be answered"),
    }
}

#[test]
fn zero_read_finishes_without_response() {
    let tag: Vec<u8> = b"12345".to_vec();
    match worker_step(&tag, ReadEvent::Closed) {
        WorkerAction::Respond(_) => panic!("end of stream must not be answered"),
        WorkerAction::Finish => {}
    }
}

#[test]
fn read_error_finishes_without_response() {
    let tag: Vec<u8> = b"777".to_vec();
    match worker_step(&tag, ReadEvent::Failed) {
        WorkerAction::Respond(_) => panic!("a failed read must not be answered"),
        WorkerAction::Finish => {}
    }
}

#[test]
fn shutdown_notification_wins_over_input() {
    let tag: Vec<u8> = b"777".to_vec();
    match worker_step(&tag, ReadEvent::ShutdownNotified) {
        WorkerAction::Respond(_) => panic!("shutdown must close without a response"),
        WorkerAction::Finish => {}
    }
}

#[test]
fn concurrent_clients_get_only_their_own_bytes() {
    let tag_a: Vec<u8> = b"11111".to_vec();
    let tag_b: Vec<u8> = b"22222".to_vec();
    let ra = build_response(&tag_a, &b"a".to_vec());
    let rb = build_response(&tag_b, &b"b".to_vec());
    assert_eq!(ra, b"(11111)a".to_vec());
    assert_eq!(rb, b"(22222)b".to_vec());
    assert_ne!(ra, rb);
}

#[test]
fn same_tag_different_messages_differ() {
    let tag: Vec<u8> = b"12345".to_vec();
    let ra = build_response(&tag, &b"a".to_vec());
    let rb = build_response(&tag, &b"b".to_vec());
    assert_ne!(ra, rb);
}

#[test]
fn empty_message_still_framed() {
    let tag: Vec<u8> = b"12345".to_vec();
    let r = build_response(&tag, &Vec::new());
    assert_eq!(r, b"(12345)".to_vec());
}

#[test]
fn maximum_size_message_echoed_whole() {
    let tag: Vec<u8> = b"12345".to_vec();
    let msg: Vec<u8> = vec![b'x'; socket::MAX_MSG_LEN];
    let r = build_response(&tag, &msg);
    assert_eq!(r.len(), socket::MAX_MSG_LEN + 7);
    assert!(r.len() <= socket::BUFFER_SIZE);
    assert_eq!(&r[..7], b"(12345)");
    assert_eq!(&r[7..], &msg[..]);
}
