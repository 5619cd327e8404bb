use comment_relay::comments::Comment;
use comment_relay::messages::BackendMessage;
use comment_relay::messages::FrontendMessage;
use comment_relay::worker::HandlerId;
use comment_relay::worker::InternalMessage;
use comment_relay::worker::Outbound;
use comment_relay::worker::SendError;
use comment_relay::worker::WebsocketWorker;
use comment_relay::worker::NOMINAL_CLOSURE_CODE;
use comment_relay::worker::QUEUE_CAPACITY;

type Worker = WebsocketWorker<FrontendMessage, BackendMessage>;

fn login(name: &str) -> FrontendMessage {
    FrontendMessage::Login(name.to_string())
}

fn event(id: i32) -> BackendMessage {
    BackendMessage::NewComment(Comment { id, user_id: 1, body: "text".to_string() })
}

const A: HandlerId = HandlerId(1);
const B: HandlerId = HandlerId(2);

#[test]
fn new_multiplexer_is_empty() {
    let worker = Worker::create();
    assert_eq!(worker.subscribers(), vec![]);
    assert_eq!(worker.pending(), 0);
    assert!(!worker.is_connected(A));
    assert_eq!(QUEUE_CAPACITY, 1000);
    assert_eq!(NOMINAL_CLOSURE_CODE, 1000);
}

#[test]
fn event_goes_to_every_attached_consumer_once() {
    let mut worker = Worker::create();
    worker.connected(A);
    worker.connected(B);
    let responses = worker.update(InternalMessage::Backend(event(1)));
    assert_eq!(responses, vec![(A, event(1)), (B, event(1))]);
}

#[test]
fn detached_consumer_gets_no_later_event() {
    let mut worker = Worker::create();
    worker.connected(A);
    worker.connected(B);
    worker.update(InternalMessage::Backend(event(1)));
    worker.disconnected(A);
    let responses = worker.update(InternalMessage::Backend(event(2)));
    assert_eq!(responses, vec![(B, event(2))]);
    assert!(!worker.is_connected(A));
    assert!(worker.is_connected(B));
}

#[test]
fn events_reach_a_consumer_in_the_order_of_arrival() {
    let mut worker = Worker::create();
    worker.connected(A);
    worker.connected(B);
    let mut seen_by_b: Vec<BackendMessage> = Vec::new();
    for id in 0..5 {
        for (to, what) in worker.update(InternalMessage::Backend(event(id))) {
            if to == B {
                seen_by_b.push(what);
            }
        }
    }
    assert_eq!(seen_by_b, vec![event(0), event(1), event(2), event(3), event(4)]);
}

#[test]
fn event_without_consumers_goes_nowhere() {
    let mut worker = Worker::create();
    assert_eq!(worker.update(InternalMessage::Backend(event(1))), vec![]);
}

#[test]
fn attaching_twice_is_attaching_once() {
    let mut worker = Worker::create();
    worker.connected(A);
    worker.connected(A);
    assert_eq!(worker.subscribers(), vec![A]);
    let responses = worker.update(InternalMessage::Backend(event(1)));
    assert_eq!(responses, vec![(A, event(1))]);
}

#[test]
fn detaching_an_unknown_consumer_changes_nothing() {
    let mut worker = Worker::create();
    worker.connected(A);
    worker.disconnected(B);
    assert_eq!(worker.subscribers(), vec![A]);
    worker.disconnected(A);
    worker.disconnected(A);
    assert_eq!(worker.subscribers(), vec![]);
}

#[test]
fn detached_consumer_can_attach_again() {
    let mut worker = Worker::create();
    worker.connected(A);
    worker.connected(B);
    worker.disconnected(A);
    worker.connected(A);
    assert_eq!(worker.subscribers(), vec![B, A]);
}

#[test]
fn requests_leave_in_the_order_in_which_they_came() {
    let mut worker = Worker::create();
    assert_eq!(worker.received(login("a"), A), Ok(()));
    assert_eq!(worker.received(login("b"), B), Ok(()));
    assert_eq!(worker.received(login("c"), A), Ok(()));
    assert_eq!(worker.pending(), 3);
    assert_eq!(worker.next_outbound(), Some(Outbound::Request(login("a"))));
    assert_eq!(worker.next_outbound(), Some(Outbound::Request(login("b"))));
    assert_eq!(worker.next_outbound(), Some(Outbound::Request(login("c"))));
    assert_eq!(worker.next_outbound(), None);
    assert_eq!(worker.pending(), 0);
}

#[test]
fn requests_are_taken_without_any_consumer_attached() {
    let mut worker = Worker::create();
    assert_eq!(worker.received(login("a"), A), Ok(()));
    assert_eq!(worker.subscribers(), vec![]);
}

#[test]
fn full_queue_reports_backpressure_and_keeps_its_order() {
    let mut worker = Worker::create();
    for i in 0..QUEUE_CAPACITY {
        assert_eq!(worker.received(login(&format!("{}", i)), A), Ok(()));
    }
    assert_eq!(worker.pending(), QUEUE_CAPACITY);
    assert_eq!(worker.received(login("one too many"), A), Err(SendError::Full));
    assert_eq!(worker.pending(), QUEUE_CAPACITY);
    for i in 0..QUEUE_CAPACITY {
        assert_eq!(worker.next_outbound(), Some(Outbound::Request(login(&format!("{}", i)))));
    }
    assert_eq!(worker.next_outbound(), None);
}

#[test]
fn drained_queue_takes_requests_again() {
    let mut worker = Worker::with_capacity(2);
    assert_eq!(worker.received(login("a"), A), Ok(()));
    assert_eq!(worker.received(login("b"), A), Ok(()));
    assert_eq!(worker.received(login("c"), A), Err(SendError::Full));
    assert_eq!(worker.next_outbound(), Some(Outbound::Request(login("a"))));
    assert_eq!(worker.received(login("d"), A), Ok(()));
    assert_eq!(worker.next_outbound(), Some(Outbound::Request(login("b"))));
    assert_eq!(worker.next_outbound(), Some(Outbound::Request(login("d"))));
}

#[test]
fn queue_without_room_takes_nothing() {
    let mut worker = Worker::with_capacity(0);
    assert_eq!(worker.received(login("a"), A), Err(SendError::Full));
    assert_eq!(worker.next_outbound(), None);
}

#[test]
fn destroy_asks_for_an_orderly_disconnect() {
    let worker = Worker::create();
    match worker.destroy() {
        InternalMessage::Disconnect(code) => assert_eq!(code, Some(1000)),
        InternalMessage::Backend(_) => panic!("an event"),
    }
}

#[test]
fn disconnect_puts_a_close_behind_the_waiting_requests() {
    let mut worker = Worker::create();
    worker.connected(A);
    worker.received(login("a"), A).unwrap();
    worker.received(login("b"), A).unwrap();
    let message = worker.destroy();
    assert_eq!(worker.update(message), vec![]);
    assert_eq!(worker.next_outbound(), Some(Outbound::Request(login("a"))));
    assert_eq!(worker.next_outbound(), Some(Outbound::Request(login("b"))));
    assert_eq!(worker.next_outbound(), Some(Outbound::Close(Some(1000))));
    assert_eq!(worker.next_outbound(), None);
}

#[test]
fn disconnected_multiplexer_takes_no_request() {
    let mut worker = Worker::create();
    worker.update(InternalMessage::Disconnect(None));
    assert_eq!(worker.received(login("a"), A), Err(SendError::Closed));
    assert_eq!(worker.pending(), 1);
    worker.update(InternalMessage::Disconnect(Some(1001)));
    assert_eq!(worker.pending(), 1);
    assert_eq!(worker.next_outbound(), Some(Outbound::Close(None)));
    assert_eq!(worker.received(login("a"), A), Err(SendError::Closed));
}

#[test]
fn disconnect_of_a_full_queue_still_closes() {
    let mut worker = Worker::with_capacity(1);
    worker.received(login("a"), A).unwrap();
    worker.update(InternalMessage::Disconnect(Some(1000)));
    assert_eq!(worker.pending(), 2);
    assert_eq!(worker.next_outbound(), Some(Outbound::Request(login("a"))));
    assert_eq!(worker.next_outbound(), Some(Outbound::Close(Some(1000))));
}

#[test]
fn events_still_fan_out_after_disconnect() {
    let mut worker = Worker::create();
    worker.connected(A);
    worker.update(InternalMessage::Disconnect(None));
    assert_eq!(worker.update(InternalMessage::Backend(event(1))), vec![(A, event(1))]);
}
