use trust_tee::util::affinity::{cpu_set_bit, numa_node_mask};
use trust_tee::single_thread::{Latch, LatchGuard};
use trust_tee::trust::{Local, LocalTrustee};
use trust_tee::util::fiber::{enqueue_then, DelegatedScopeGuard};
use trust_tee::util::PinConfig;

#[test]
fn latch_lock_and_release() {
    let mut l = Latch::new(5u32);
    assert!(!l.is_locked());
    {
        let mut g: LatchGuard<'_, u32> = l.lock();
        *g.get_mut() += 2;
        assert_eq!(*g.get(), 7);
        g.unlock();
    }
    assert!(!l.is_locked());
    assert_eq!(l.into_inner(), 7);
}

#[test]
fn dropped_guard_frees_the_latch_and_keeps_its_write() {
    let mut l = Latch::new(1u8);
    {
        let mut g = l.try_lock().unwrap();
        *g.get_mut() = 9;
        // The guard goes out of scope without an explicit unlock.
    }
    assert!(!l.is_locked());
    let g = l.try_lock();
    assert!(g.is_some());
    assert_eq!(*g.unwrap().get(), 9);
    *l.get_mut() = 3;
    assert_eq!(l.into_inner(), 3);
}

#[test]
fn local_trust_applies_in_place() {
    let lt = LocalTrustee::new();
    let mut counter = lt.entrust(17i64);
    counter.apply(|c| *c += 1);
    counter.apply(|c| *c += 1);
    assert_eq!(counter.apply(|c| *c), 19);
    let mut seen = 0;
    counter.apply_then(
        |c| {
            *c += 1;
            *c
        },
        |v| seen = v,
    );
    assert_eq!(seen, 20);
    assert_eq!(counter.apply_with(|c, d: i64| { *c += d; *c }, 5), 25);
    assert_eq!(counter.with(|c| *c * 2), 50);
    assert_eq!(counter.into_inner(), 25);
}

#[test]
fn local_latch_helpers() {
    let mut guarded = Local::entrust(Latch::new(Vec::<u8>::new()));
    let len = guarded.lock_apply(|v| {
        v.push(10);
        v.push(20);
        v.len()
    });
    assert_eq!(len, 2);
    let mut observed = 0usize;
    guarded.lock_apply_then(
        |v| {
            v.extend_from_slice(&[1, 2]);
            v.len()
        },
        |l| observed = l,
    );
    assert_eq!(observed, 4);
    let pushed = guarded.lock_apply_with(
        |v, extra: &[u8]| {
            v.extend_from_slice(extra);
            v.len()
        },
        &[9, 9][..],
    );
    assert_eq!(pushed, 6);
    let sum = guarded.lock_with(|v| v.iter().map(|x| *x as u32).sum::<u32>());
    assert_eq!(sum, 10 + 20 + 1 + 2 + 9 + 9);
    let latch = guarded.into_inner();
    assert!(!latch.is_locked());
}

#[test]
fn enqueue_then_runs_now() {
    let _g = DelegatedScopeGuard::enter();
    let mut out = 0;
    enqueue_then(|v: i32| out = v * 2, 21);
    assert_eq!(out, 42);
}

#[test]
fn pin_config_default_is_empty() {
    let c = PinConfig::default();
    assert_eq!(c.core_id, None);
    assert_eq!(c.numa_node, None);
    assert!(!c.mem_bind);
    assert_eq!(c.mac_affinity_tag, None);
}

#[test]
fn latch_with_lock_releases_and_keeps_last_write() {
    let mut l = Latch::new(1u32);
    let r = l.with_lock(|v| {
        *v += 10;
        *v
    });
    assert_eq!(r, 11);
    assert!(!l.is_locked());
    {
        let mut g = l.lock();
        *g.get_mut() = 40;
        g.unlock();
    }
    l.with_lock(|v| *v += 2);
    assert_eq!(l.into_inner(), 42);
}

#[test]
fn pinning_masks() {
    assert_eq!(cpu_set_bit(0), Some((0, 1)));
    assert_eq!(cpu_set_bit(65), Some((1, 2)));
    assert_eq!(cpu_set_bit(1023), Some((15, 1u64 << 63)));
    assert_eq!(cpu_set_bit(1024), None);
    assert_eq!(numa_node_mask(3), Some(8));
    assert_eq!(numa_node_mask(64), None);
}
