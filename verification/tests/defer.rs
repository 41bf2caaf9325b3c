use std::sync::atomic::{self, AtomicI32};
use std::sync::Arc;

use tskv_jobs::defer::DeferGuard;

#[test]
fn test_defer_guard() {
    let a = Arc::new(AtomicI32::new(0));
    let runtime = tokio::runtime::Builder::new_multi_thread()
        .enable_all()
        .worker_threads(2)
        .build()
        .unwrap();
    {
        let a = a.clone();
        let jh = runtime.spawn(async move {
            a.fetch_add(1, atomic::Ordering::SeqCst);
            let _guard = DeferGuard::new(|| {
                a.fetch_sub(1, atomic::Ordering::SeqCst);
            });
            a.fetch_add(1, atomic::Ordering::SeqCst);
            a.fetch_add(1, atomic::Ordering::SeqCst);

            assert_eq!(a.load(atomic::Ordering::SeqCst), 3);
        });
        let _ = runtime.block_on(jh);
    }
    assert_eq!(a.load(atomic::Ordering::SeqCst), 2);
}

#[test]
fn guard_runs_its_action_once_on_drop() {
    let count = AtomicI32::new(0);
    {
        let guard = DeferGuard::new(|| {
            count.fetch_add(1, atomic::Ordering::SeqCst);
        });
        assert!(guard.is_armed());
        assert_eq!(count.load(atomic::Ordering::SeqCst), 0);
    }
    assert_eq!(count.load(atomic::Ordering::SeqCst), 1);
}

#[test]
fn guard_runs_on_early_return() {
    fn leave_early(count: &AtomicI32, early: bool) -> i32 {
        let _guard = DeferGuard::new(|| {
            count.fetch_add(1, atomic::Ordering::SeqCst);
        });
        if early {
            return 1;
        }
        2
    }
    let count = AtomicI32::new(0);
    assert_eq!(leave_early(&count, true), 1);
    assert_eq!(count.load(atomic::Ordering::SeqCst), 1);
    assert_eq!(leave_early(&count, false), 2);
    assert_eq!(count.load(atomic::Ordering::SeqCst), 2);
}

#[test]
fn run_then_drop_runs_the_action_only_once() {
    let count = AtomicI32::new(0);
    {
        let mut guard = DeferGuard::new(|| {
            count.fetch_add(1, atomic::Ordering::SeqCst);
        });
        guard.run();
        assert!(!guard.is_armed());
        assert_eq!(count.load(atomic::Ordering::SeqCst), 1);
        guard.run();
        assert!(!guard.is_armed());
        assert_eq!(count.load(atomic::Ordering::SeqCst), 1);
    }
    assert_eq!(count.load(atomic::Ordering::SeqCst), 1);
}

#[test]
fn released_guard_runs_nothing() {
    let count = AtomicI32::new(0);
    {
        let mut guard = DeferGuard::new(|| {
            count.fetch_add(1, atomic::Ordering::SeqCst);
        });
        let action = guard.release();
        assert!(action.is_some());
        assert!(!guard.is_armed());
        assert!(guard.release().is_none());
        guard.run();
        assert_eq!(count.load(atomic::Ordering::SeqCst), 0);
    }
    assert_eq!(count.load(atomic::Ordering::SeqCst), 0);
}

#[test]
fn released_action_can_still_be_called_by_hand() {
    let count = AtomicI32::new(0);
    let mut guard = DeferGuard::new(|| {
        count.fetch_add(5, atomic::Ordering::SeqCst);
    });
    let action = guard.release().unwrap();
    drop(guard);
    assert_eq!(count.load(atomic::Ordering::SeqCst), 0);
    action();
    assert_eq!(count.load(atomic::Ordering::SeqCst), 5);
}

#[test]
fn guard_runs_when_the_scope_unwinds() {
    let count = Arc::new(AtomicI32::new(0));
    let seen = count.clone();
    let runtime = tokio::runtime::Builder::new_multi_thread()
        .enable_all()
        .worker_threads(1)
        .build()
        .unwrap();
    let worker = runtime.spawn(async move {
        let _guard = DeferGuard::new(move || {
            seen.fetch_add(1, atomic::Ordering::SeqCst);
        });
        panic!("the scope is left by a panic");
    });
    assert!(runtime.block_on(worker).is_err());
    assert_eq!(count.load(atomic::Ordering::SeqCst), 1);
}
