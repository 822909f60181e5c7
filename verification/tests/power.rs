use robotrace_sim::power::{CommandQueue, FaultLog, QUEUE_CAPACITY};

#[test]
fn commands_arrive_after_their_latency() {
    let mut q: CommandQueue<&str> = CommandQueue::new();
    let mut applied = (0u64, "coast");
    assert!(q.request(100, 50, "drive").is_ok());
    assert!(q.request(120, 50, "brake").is_ok());
    q.deliver(149, &mut applied);
    assert_eq!(applied, (0, "coast"));
    q.deliver(150, &mut applied);
    assert_eq!(applied, (150, "drive"));
    q.deliver(1000, &mut applied);
    assert_eq!(applied, (170, "brake"));
}

#[test]
fn the_latest_due_command_wins() {
    let mut q: CommandQueue<u8> = CommandQueue::default();
    let mut applied = (0u64, 0u8);
    for i in 1..=5u8 {
        q.request(i as u64, 0, i).unwrap();
    }
    q.deliver(3, &mut applied);
    assert_eq!(applied, (3, 3));
    q.deliver(10, &mut applied);
    assert_eq!(applied, (5, 5));
}

#[test]
fn a_later_due_command_blocks_the_ones_behind_it() {
    let mut q: CommandQueue<u8> = CommandQueue::new();
    let mut applied = (0u64, 0u8);
    q.request(0, 100, 1).unwrap();
    q.request(10, 0, 2).unwrap();
    q.deliver(50, &mut applied);
    assert_eq!(applied, (0, 0));
    q.deliver(100, &mut applied);
    assert_eq!(applied, (10, 2));
}

#[test]
fn timestamp_overflow_and_capacity() {
    let mut q: CommandQueue<u8> = CommandQueue::new();
    assert_eq!(q.request(u64::MAX, 1, 0), Err("command timestamp overflow".to_string()));
    assert!(q.request(u64::MAX, 0, 0).is_ok());
    let mut q: CommandQueue<u8> = CommandQueue::new();
    for _ in 0..QUEUE_CAPACITY {
        q.request(0, 1, 0).unwrap();
    }
    assert_eq!(q.request(0, 1, 0), Err("actuator queue capacity exceeded".to_string()));
    let mut applied = (0u64, 9u8);
    q.deliver(1, &mut applied);
    assert!(q.request(0, 1, 0).is_ok());
}

#[test]
fn first_fault_is_sticky() {
    let mut log = FaultLog::new();
    assert_eq!(log.fault(), None);
    log.trip(50, "battery undervoltage");
    log.trip(60, "overcurrent");
    assert_eq!(log.fault().map(|s| s.as_str()), Some("battery undervoltage"));
    assert_eq!(log.events(), &[(50, "battery undervoltage".to_string())]);
}
