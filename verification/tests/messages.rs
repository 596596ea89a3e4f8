use physim::messages::{Message, MessageBus, MessagePriority};

fn msg(priority: MessagePriority, topic: &str, body: &str, sender_id: usize) -> Message {
    Message {
        priority,
        topic: topic.to_string(),
        message: body.to_string(),
        sender_id,
    }
}

#[test]
fn test_message_bus() {
    let mut bus = MessageBus::new();
    bus.add_client(7);
    bus.post_message(msg(MessagePriority::Low, "t", "m", 1));
    let delivered = bus.pop_messages();
    assert_eq!(delivered.len(), 1);
    assert!(true)
}

#[test]
fn most_urgent_message_comes_first() {
    let mut bus = MessageBus::default();
    bus.add_client(100);
    bus.post_message(msg(MessagePriority::Low, "c1", "1", 1));
    bus.post_message(msg(MessagePriority::Normal, "c1", "2", 1));
    bus.post_message(msg(MessagePriority::RealTime, "c1", "3", 1));
    bus.post_message(msg(MessagePriority::Critical, "c1", "4", 1));
    bus.post_message(msg(MessagePriority::Background, "c1", "5", 1));
    let delivered = bus.pop_messages();
    let bodies: Vec<&str> = delivered.iter().map(|d| d.message.message.as_str()).collect();
    assert_eq!(bodies, vec!["4", "3", "2", "1", "5"]);
    assert!(bus.pop_messages().is_empty());
}

#[test]
fn equal_priorities_keep_their_order() {
    let mut bus = MessageBus::new();
    bus.add_client(100);
    bus.post_message(msg(MessagePriority::High, "a", "first", 1));
    bus.post_message(msg(MessagePriority::Low, "a", "low", 1));
    bus.post_message(msg(MessagePriority::High, "a", "second", 2));
    let delivered = bus.pop_messages();
    let bodies: Vec<&str> = delivered.iter().map(|d| d.message.message.as_str()).collect();
    assert_eq!(bodies, vec!["first", "second", "low"]);
}

#[test]
fn sender_does_not_receive_its_own_message() {
    let mut bus = MessageBus::new();
    bus.add_client(1);
    bus.add_client(2);
    bus.add_client(3);
    bus.post_message(msg(MessagePriority::Normal, "x", "from two", 2));
    let delivered = bus.pop_messages();
    let clients: Vec<usize> = delivered.iter().map(|d| d.client).collect();
    assert_eq!(clients, vec![0, 2]);
    assert!(delivered.iter().all(|d| d.message.message == "from two"));
}

#[test]
fn bus_without_clients_delivers_nothing() {
    let mut bus = MessageBus::new();
    bus.post_message(msg(MessagePriority::Normal, "x", "y", 2));
    assert!(bus.pop_messages().is_empty());
}

#[test]
fn messages_are_ordered_by_priority_alone() {
    let a = msg(MessagePriority::High, "a", "1", 1);
    let b = msg(MessagePriority::Low, "z", "2", 9);
    let c = msg(MessagePriority::High, "q", "3", 3);
    assert_eq!(a.cmp(&b), std::cmp::Ordering::Greater);
    assert_eq!(b.cmp(&a), std::cmp::Ordering::Less);
    assert_eq!(a.cmp(&c), std::cmp::Ordering::Equal);
    assert_eq!(a.partial_cmp(&b), Some(std::cmp::Ordering::Greater));
}

#[test]
fn priority_ranks_and_names() {
    assert_eq!(MessagePriority::Background.rank(), 0);
    assert_eq!(MessagePriority::Critical.rank(), 5);
    assert_eq!(MessagePriority::RealTime.name(), "RealTime");
    assert_eq!(MessagePriority::Normal.name(), "Normal");
}

#[test]
fn duplicate_copies_every_field() {
    let a = msg(MessagePriority::Critical, "topic", "message", 4);
    assert_eq!(a.duplicate(), a);
}

#[test]
fn every_message_reaches_every_other_client() {
    let mut bus = MessageBus::new();
    bus.add_client(1);
    bus.add_client(2);
    bus.post_message(msg(MessagePriority::Low, "t", "a", 1));
    bus.post_message(msg(MessagePriority::Critical, "t", "b", 3));
    bus.post_message(msg(MessagePriority::Normal, "t", "c", 2));
    let delivered = bus.pop_messages();
    let pairs: Vec<(usize, &str)> = delivered
        .iter()
        .map(|d| (d.client, d.message.message.as_str()))
        .collect();
    assert_eq!(pairs, vec![(0, "b"), (1, "b"), (0, "c"), (1, "a")]);
}
