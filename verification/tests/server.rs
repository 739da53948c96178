use chatlib::codec::Message;
use chatlib::distributor::{delivered_peers, frame_message, plan_broadcast};
use chatlib::frame::encode_frame;
use chatlib::registry::Registry;

#[test]
fn registry_isolation() {
    // Registering A and B, then deregistering A, leaves B retrievable and A
    // absent.
    let mut reg: Registry<u64> = Registry::new();
    reg.register(1, 11);
    reg.register(2, 22);
    reg.deregister(1);

    assert!(reg.contains(2));
    assert_eq!(reg.get(2), Some(&22));
    assert!(!reg.contains(1));
    assert_eq!(reg.get(1), None);
    assert_eq!(reg.len(), 1);
}

#[test]
fn registry_register_replaces() {
    let mut reg: Registry<u64> = Registry::new();
    reg.register(1, 11);
    reg.register(1, 99);
    assert_eq!(reg.len(), 1);
    assert_eq!(reg.get(1), Some(&99));
}

#[test]
fn registry_deregister_absent_is_noop() {
    let mut reg: Registry<u64> = Registry::new();
    reg.register(5, 50);
    reg.deregister(7);
    assert_eq!(reg.len(), 1);
    assert!(reg.contains(5));
}

#[test]
fn broadcast_fanout_echoes_to_sender() {
    // Peers A, B, C registered; a message from A reaches all three with the
    // identical framed bytes, the sender included.
    let mut reg: Registry<u64> = Registry::new();
    reg.register(1, 10);
    reg.register(2, 20);
    reg.register(3, 30);

    let msg = Message::new_text_message("hi");
    let plan = plan_broadcast(&reg, &msg).unwrap();
    let expected = frame_message(&msg).unwrap();

    assert_eq!(plan.len(), 3);
    let keys: Vec<u64> = plan.iter().map(|p| p.0).collect();
    assert_eq!(keys, vec![1, 2, 3]);
    for (_, frame) in &plan {
        assert_eq!(frame, &expected);
    }
}

#[test]
fn frame_message_is_encode_then_frame() {
    let msg = Message::File("data.bin".to_owned(), vec![1, 2, 3]);
    let framed = frame_message(&msg).unwrap();
    assert_eq!(framed, encode_frame(&msg.encode().unwrap()).unwrap());
}

#[test]
fn partial_failure_keeps_other_peers() {
    // B's write fails; A and C still receive the message.
    let mut reg: Registry<u64> = Registry::new();
    reg.register(1, 10);
    reg.register(2, 20);
    reg.register(3, 30);

    let msg = Message::new_text_message("hi");
    let plan = plan_broadcast(&reg, &msg).unwrap();
    let outcomes = vec![true, false, true];
    let delivered = delivered_peers(&plan, &outcomes);

    assert_eq!(delivered, vec![1, 3]);
}

#[test]
fn all_writes_fail_delivers_nothing() {
    let mut reg: Registry<u64> = Registry::new();
    reg.register(1, 10);
    let msg = Message::new_text_message("hi");
    let plan = plan_broadcast(&reg, &msg).unwrap();
    let delivered = delivered_peers(&plan, &vec![false]);
    assert_eq!(delivered, Vec::<u64>::new());
}

#[test]
fn broadcast_to_empty_registry() {
    let reg: Registry<u64> = Registry::new();
    let msg = Message::new_text_message("hi");
    let plan = plan_broadcast(&reg, &msg).unwrap();
    assert!(plan.is_empty());
}
