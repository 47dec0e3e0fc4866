use std::cell::Cell;

use embed_server::env::EnvVars;
use embed_server::mlock::{
    lock_hint, lock_weights, mlock_enabled, unreadable, LockOutcome, MlockedBuf,
};

#[test]
fn mlock_buf_drop_unlocked_is_noop() {
    let buf = MlockedBuf::new(b"hello".to_vec(), false);
    assert!(!buf.needs_unlock());
    drop(buf);
}

#[test]
fn mlock_buf_drop_empty_buf_is_noop() {
    let buf = MlockedBuf::new(vec![], true);
    assert!(!buf.needs_unlock());
    drop(buf);
}

#[test]
fn locked_bytes_are_to_be_unlocked() {
    let buf = MlockedBuf::new(b"hello".to_vec(), true);
    assert!(buf.needs_unlock());
    assert_eq!(buf.as_slice(), b"hello");
    assert_eq!(buf.len(), 5);
}

#[test]
fn locking_is_on_unless_it_is_turned_off() {
    let with = |v: &str| {
        let mut e = EnvVars::new();
        e.set("EMBED_MLOCK_WEIGHTS", v);
        mlock_enabled(&e)
    };
    assert!(mlock_enabled(&EnvVars::new()));
    for off in ["0", "false", "False", "FALSE"] {
        assert!(!with(off), "{off}");
    }
    for on in ["1", "true", "", "no", "fALSE"] {
        assert!(with(on), "{on}");
    }
}

#[test]
fn weights_are_locked_where_that_is_wanted() {
    let calls = Cell::new(0u32);
    let lock = |_: &Vec<u8>| -> LockOutcome {
        calls.set(calls.get() + 1);
        LockOutcome::Locked
    };
    let (buf, hint) = lock_weights(b"fake-onnx-weights-payload".to_vec(), &EnvVars::new(), &lock);
    assert_eq!(buf.as_slice(), b"fake-onnx-weights-payload");
    assert!(buf.needs_unlock());
    assert_eq!((hint, calls.get()), (None, 1));

    let mut off = EnvVars::new();
    off.set("EMBED_MLOCK_WEIGHTS", "0");
    let (buf, _) = lock_weights(b"opt-out-path-payload".to_vec(), &off, &lock);
    assert_eq!(buf.as_slice(), b"opt-out-path-payload");
    assert!(!buf.needs_unlock());
    let (buf, _) = lock_weights(vec![], &EnvVars::new(), &lock);
    assert!(!buf.needs_unlock());
    assert_eq!(calls.get(), 1, "neither asked for a lock");
}

#[test]
fn failed_locks_are_explained() {
    let lock = |_: &Vec<u8>| -> LockOutcome { LockOutcome::OutOfMemory };
    let (buf, hint) = lock_weights(vec![1], &EnvVars::new(), &lock);
    assert!(!buf.needs_unlock());
    assert!(hint.expect("hint").starts_with("raise ulimits.memlock"));
    assert!(lock_hint(LockOutcome::NotPermitted).expect("hint").contains("CAP_IPC_LOCK"));
    assert_eq!(lock_hint(LockOutcome::Errno(22)).as_deref(), Some("errno=22"));
    assert_eq!(lock_hint(LockOutcome::Errno(-1)).as_deref(), Some("errno=-1"));
    assert_eq!(lock_hint(LockOutcome::Unsupported), None);
    assert_eq!(lock_hint(LockOutcome::Locked), None);
}

#[test]
fn unreadable_files_are_named() {
    assert_eq!(unreadable("/m/model.onnx", "not found"), "read ONNX /m/model.onnx: not found");
}
