use trust_tee::ring::{backoff_step, next_power_of_two, BackoffAction, Spsc};
use trust_tee::util::wait::{WaitAction, WaitBudget};

#[test]
fn capacity_rounds_up_to_power_of_two_at_least_two() {
    assert_eq!(Spsc::<u32>::new(0).capacity(), 2);
    assert_eq!(Spsc::<u32>::new(1).capacity(), 2);
    assert_eq!(Spsc::<u32>::new(2).capacity(), 2);
    assert_eq!(Spsc::<u32>::new(3).capacity(), 4);
    assert_eq!(Spsc::<u32>::new(1000).capacity(), 1024);
    assert_eq!(Spsc::<u32>::new(1024).capacity(), 1024);
}

#[test]
fn next_power_of_two_values() {
    assert_eq!(next_power_of_two(0), 1);
    assert_eq!(next_power_of_two(1), 1);
    assert_eq!(next_power_of_two(5), 8);
    assert_eq!(next_power_of_two(64), 64);
    assert_eq!(next_power_of_two(65), 128);
}

#[test]
fn ring_is_fifo_and_bounded() {
    let mut r = Spsc::new(3);
    assert_eq!(r.try_pop(), None);
    for i in 0..4u32 {
        assert_eq!(r.try_push(i), Ok(()));
    }
    assert_eq!(r.try_push(9), Err(9));
    assert_eq!(r.try_pop(), Some(0));
    assert_eq!(r.try_pop(), Some(1));
    r.push_backoff(4);
    r.push_backoff(5);
    assert_eq!(r.try_push(6), Err(6));
    assert_eq!(r.pop_backoff(), 2);
    assert_eq!(r.pop_backoff(), 3);
    assert_eq!(r.pop_backoff(), 4);
    assert_eq!(r.pop_backoff(), 5);
    assert_eq!(r.try_pop(), None);
}

#[test]
fn ring_wraps_many_times() {
    let mut r = Spsc::new(2);
    for i in 0..1000u64 {
        assert_eq!(r.try_push(i), Ok(()));
        assert_eq!(r.try_push(i + 1_000_000), Ok(()));
        assert_eq!(r.try_pop(), Some(i));
        assert_eq!(r.try_pop(), Some(i + 1_000_000));
    }
    assert_eq!(r.try_pop(), None);
}

#[test]
fn ring_backoff_schedule() {
    assert_eq!(backoff_step(0), (BackoffAction::Spin, 1));
    assert_eq!(backoff_step(39), (BackoffAction::Spin, 40));
    assert_eq!(backoff_step(40), (BackoffAction::Yield, 41));
    assert_eq!(backoff_step(79), (BackoffAction::Yield, 80));
    assert_eq!(backoff_step(80), (BackoffAction::Park, 0));
}

fn steps(b: &mut WaitBudget, n: usize) -> Vec<WaitAction> {
    (0..n).map(|_| b.step()).collect()
}

#[test]
fn hot_budget_spins_then_yields_then_spins() {
    let mut b = WaitBudget::hot();
    let acts = steps(&mut b, 140);
    assert!(acts[..128].iter().all(|a| *a == WaitAction::Spin));
    assert!(acts[128..136].iter().all(|a| *a == WaitAction::Yield));
    assert!(acts[136..].iter().all(|a| *a == WaitAction::Spin));
}

#[test]
fn default_budget_and_reset() {
    let mut b = WaitBudget::default();
    let acts = steps(&mut b, 70);
    assert!(acts[..64].iter().all(|a| *a == WaitAction::Spin));
    assert!(acts[64..68].iter().all(|a| *a == WaitAction::Yield));
    assert_eq!(acts[68], WaitAction::Spin);
    b.reset();
    let again = steps(&mut b, 65);
    assert!(again[..64].iter().all(|a| *a == WaitAction::Spin));
    assert_eq!(again[64], WaitAction::Yield);
}

#[test]
fn ring_returns_k_items_in_order() {
    let mut r = Spsc::new(8);
    let items = [5u8, 1, 4, 1, 5, 9, 2, 6];
    for &x in &items {
        r.push_backoff(x);
    }
    assert_eq!(r.try_push(0), Err(0));
    for &x in &items {
        assert_eq!(r.pop_backoff(), x);
    }
    assert_eq!(r.try_pop(), None);
    assert_eq!(r.capacity(), 8);
}
