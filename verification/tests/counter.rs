use std::sync::{Arc, Mutex};

use session_counter::counter::SessionCounter;
use session_counter::unit1;

#[test]
fn new_counter_starts_at_zero() {
    assert_eq!(SessionCounter::new().current(), 0);
    assert_eq!(SessionCounter::default().current(), 0);
    assert_eq!(SessionCounter::new(), SessionCounter::starting_at(0));
}

#[test]
fn starting_at_holds_the_given_count() {
    assert_eq!(SessionCounter::starting_at(41).current(), 41);
    assert_eq!(SessionCounter::starting_at(u32::MAX).current(), u32::MAX);
}

#[test]
fn increment_and_read_returns_the_new_count() {
    let mut counter = SessionCounter::new();
    assert_eq!(counter.increment_and_read(), 1);
    assert_eq!(counter.current(), 1);
    assert_eq!(counter.increment_and_read(), 2);
    assert_eq!(counter.increment_and_read(), 3);
    assert_eq!(counter.current(), 3);
}

#[test]
fn increment_reaches_the_limit() {
    let mut counter = SessionCounter::starting_at(u32::MAX - 1);
    assert_eq!(counter.increment_and_read(), u32::MAX);
    assert_eq!(counter.current(), u32::MAX);
}

#[test]
fn current_does_not_move_the_counter() {
    let counter = SessionCounter::starting_at(5);
    assert_eq!(counter.current(), 5);
    assert_eq!(counter.current(), 5);
}

#[test]
fn no_increments_leave_the_counter_where_it_was() {
    let mut counter = SessionCounter::starting_at(17);
    let mut served: Vec<u32> = Vec::new();
    for _ in 0..0 {
        served.push(counter.increment_and_read());
    }
    assert!(served.is_empty());
    assert_eq!(counter.current(), 17);
}

#[test]
fn increments_in_sequence_serve_each_count_once() {
    let start: u32 = 100;
    let mut counter = SessionCounter::starting_at(start);
    let mut served = Vec::new();
    for _ in 0..50 {
        served.push(counter.increment_and_read());
    }
    let expected: Vec<u32> = (start + 1..=start + 50).collect();
    assert_eq!(served, expected);
    assert_eq!(counter.current(), start + 50);
}

/// One holder of the shared counter, with the counts that it was served.
struct Caller {
    shared: Arc<Mutex<SessionCounter>>,
    served: Vec<u32>,
}

impl Caller {
    fn call(&mut self) {
        let served = self.shared.lock().unwrap().increment_and_read();
        self.served.push(served);
    }
}

#[test]
fn interleaved_callers_are_served_each_count_once() {
    let start: u32 = 1_000;
    let callers: usize = 8;
    let total: u32 = 2_000;
    let shared = Arc::new(Mutex::new(SessionCounter::starting_at(start)));
    let mut pool: Vec<Caller> = (0..callers)
        .map(|_| Caller { shared: Arc::clone(&shared), served: Vec::new() })
        .collect();
    // The lock admits one caller at a time, in an order it does not promise:
    // here a scrambled one.
    let mut turn: u32 = 12_345;
    for _ in 0..total {
        turn = turn.wrapping_mul(1_103_515_245).wrapping_add(12_345);
        let who = (turn >> 16) as usize % callers;
        pool[who].call();
    }
    let mut served: Vec<u32> = Vec::new();
    for caller in &pool {
        // Each caller sees its own counts in rising order.
        assert!(caller.served.windows(2).all(|pair| pair[0] < pair[1]));
        served.extend(caller.served.iter().copied());
    }
    served.sort();
    let expected: Vec<u32> = (start + 1..=start + total).collect();
    assert_eq!(served, expected);
    assert_eq!(shared.lock().unwrap().current(), start + total);
}

#[test]
fn three_callers_from_zero() {
    let shared = Arc::new(Mutex::new(SessionCounter::new()));
    let mut pool: Vec<Caller> = (0..3)
        .map(|_| Caller { shared: Arc::clone(&shared), served: Vec::new() })
        .collect();
    for who in [2, 0, 1] {
        pool[who].call();
    }
    let mut served: Vec<u32> = pool.iter().flat_map(|caller| caller.served.clone()).collect();
    served.sort();
    assert_eq!(served, vec![1, 2, 3]);
    assert_eq!(shared.lock().unwrap().current(), 3);
}

#[test]
fn unit1_collapses_any_value() {
    assert_eq!(unit1(5u32), ());
    assert_eq!(unit1("anything"), ());
    assert_eq!(unit1(vec![1u8, 2, 3]), ());
    let collapsed: Result<(), ()> = Err::<u32, &str>("down").map_err(unit1).map(unit1);
    assert_eq!(collapsed, Err(()));
    let collapsed: Result<(), ()> = Ok::<u32, &str>(3).map_err(unit1).map(unit1);
    assert_eq!(collapsed, Ok(()));
}
