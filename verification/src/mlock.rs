//! Model weights that are kept in memory: the bytes of a model file, and
//! whether the operating system was made to lock them.
//!
//! A lock that fails is no error: the weights are usable, but they may be
//! swapped out.
use vstd::prelude::*;
use vstd::string::*;
use crate::env::{lookup, EnvVars};
use crate::text::{decimal, push_decimal, same};

verus! {

broadcast use group_string_axioms;

/// The bytes of a model file.
#[derive(Debug)]
pub struct MlockedBuf {
    buf: Vec<u8>,
    locked: bool,
}

impl MlockedBuf {
    /// The bytes.
    pub closed spec fn bytes(&self) -> Seq<u8> {
        self.buf@
    }

    /// Whether a lock was obtained.
    pub closed spec fn is_locked(&self) -> bool {
        self.locked
    }

    /// A buffer of the given bytes.
    pub fn new(buf: Vec<u8>, locked: bool) -> (r: MlockedBuf)
        ensures
            r.bytes() == buf@,
            r.is_locked() == locked,
    {
        MlockedBuf { buf, locked }
    }

    /// The bytes.
    pub fn as_slice(&self) -> (r: &[u8])
        ensures
            r@ == self.bytes(),
    {
        self.buf.as_slice()
    }

    /// The number of bytes.
    pub fn len(&self) -> (r: usize)
        ensures
            r == self.bytes().len(),
    {
        self.buf.len()
    }

    /// Whether the bytes are to be unlocked before they are given up: a lock
    /// was obtained, and there is a byte.
    pub fn needs_unlock(&self) -> (r: bool)
        ensures
            r == (self.is_locked() && self.bytes().len() > 0),
    {
        self.locked && self.buf.len() > 0
    }
}

/// Weights are locked unless the variable says `0` or `false`.
pub open spec fn locks_weights(raw: Option<Seq<char>>) -> bool {
    match raw {
        None => true,
        Some(s) => s != "0"@ && s != "false"@ && s != "False"@ && s != "FALSE"@,
    }
}

/// Whether weights are to be locked.
pub fn mlock_enabled(env: &EnvVars) -> (r: bool)
    ensures
        r == locks_weights(lookup(env@, "EMBED_MLOCK_WEIGHTS"@)),
{
    match env.get("EMBED_MLOCK_WEIGHTS") {
        None => true,
        Some(s) => !(same(s, "0") || same(s, "false") || same(s, "False") || same(s, "FALSE")),
    }
}

/// What became of an attempt to lock some bytes.
#[derive(Clone, Copy, Debug, PartialEq, Eq, Structural)]
pub enum LockOutcome {
    Locked,
    /// There is no such operation on this system.
    Unsupported,
    /// The memory limit is too low.
    OutOfMemory,
    /// The process may not lock memory.
    NotPermitted,
    /// Another error, by its number.
    Errno(i32),
}

/// What the operator is told of a lock that failed.
pub open spec fn hint_of(outcome: LockOutcome) -> Option<Seq<char>> {
    match outcome {
        LockOutcome::Locked => None,
        LockOutcome::Unsupported => None,
        LockOutcome::OutOfMemory => Some(
            "raise ulimits.memlock in compose to ≥2 GiB (soft: 2147483648 / hard: 2147483648) — set EMBED_MLOCK_WEIGHTS=0 to suppress this warning"@,
        ),
        LockOutcome::NotPermitted => Some(
            "need CAP_IPC_LOCK or raised RLIMIT_MEMLOCK; set EMBED_MLOCK_WEIGHTS=0 to suppress"@,
        ),
        LockOutcome::Errno(n) => Some(
            "errno="@ + if n < 0 {
                "-"@ + decimal((-n) as nat)
            } else {
                decimal(n as nat)
            },
        ),
    }
}

/// What the operator is told of a lock that failed.
pub fn lock_hint(outcome: LockOutcome) -> (r: Option<String>)
    ensures
        match (r, hint_of(outcome)) {
            (Some(s), Some(t)) => s@ == t,
            (None, None) => true,
            _ => false,
        },
{
    match outcome {
        LockOutcome::Locked => None,
        LockOutcome::Unsupported => None,
        LockOutcome::OutOfMemory => Some(
            "raise ulimits.memlock in compose to ≥2 GiB (soft: 2147483648 / hard: 2147483648) — set EMBED_MLOCK_WEIGHTS=0 to suppress this warning".to_owned(),
        ),
        LockOutcome::NotPermitted => Some(
            "need CAP_IPC_LOCK or raised RLIMIT_MEMLOCK; set EMBED_MLOCK_WEIGHTS=0 to suppress".to_owned(),
        ),
        LockOutcome::Errno(n) => {
            let mut m: String = "errno=".to_owned();
            if n < 0 {
                m.append("-");
                push_decimal(&mut m, (-(n as i64)) as u64);
            } else {
                push_decimal(&mut m, n as u64);
            }
            Some(m)
        },
    }
}

/// `kept` holds the bytes of a model file, locked where that is wanted: `lock`
/// is asked only where it is, and never for an empty file.
pub open spec fn keeps_weights<F: Fn(&Vec<u8>) -> LockOutcome>(
    buf: Vec<u8>,
    wanted: bool,
    lock: &F,
    kept: MlockedBuf,
    hint: Option<String>,
) -> bool {
    &&& kept.bytes() == buf@
    &&& if wanted && buf@.len() > 0 {
        exists|o: LockOutcome|
            {
                &&& #[trigger] call_ensures(lock, (&buf,), o)
                &&& kept.is_locked() == (o is Locked)
                &&& match (hint, hint_of(o)) {
                    (Some(s), Some(t)) => s@ == t,
                    (None, None) => true,
                    _ => false,
                }
            }
    } else {
        !kept.is_locked() && hint is None
    }
}

/// Takes over the bytes of a model file and has them locked where that is
/// wanted.
pub fn lock_weights<F: Fn(&Vec<u8>) -> LockOutcome>(buf: Vec<u8>, env: &EnvVars, lock: &F) -> (r: (
    MlockedBuf,
    Option<String>,
))
    requires
        forall|b: &Vec<u8>| call_requires(lock, (b,)),
    ensures
        keeps_weights(buf, locks_weights(lookup(env@, "EMBED_MLOCK_WEIGHTS"@)), lock, r.0, r.1),
{
    if !mlock_enabled(env) || buf.len() == 0 {
        return (MlockedBuf { buf, locked: false }, None);
    }
    let outcome: LockOutcome = lock(&buf);
    let locked: bool = match outcome {
        LockOutcome::Locked => true,
        _ => false,
    };
    (MlockedBuf { buf, locked }, lock_hint(outcome))
}

/// The message where a model file cannot be read.
pub fn unreadable(path: &str, why: &str) -> (r: String)
    ensures
        r@ == "read ONNX "@ + path@ + ": "@ + why@,
{
    let mut m: String = "read ONNX ".to_owned();
    m.append(path);
    m.append(": ");
    m.append(why);
    m
}

/// Weights are locked unless that is switched off in one of four ways.
pub proof fn law_locking_is_the_default(s: Seq<char>)
    ensures
        locks_weights(None),
        !locks_weights(Some("0"@)),
        !locks_weights(Some("false"@)),
        !locks_weights(Some("False"@)),
        !locks_weights(Some("FALSE"@)),
        !locks_weights(Some(s)) ==> s == "0"@ || s == "false"@ || s == "False"@ || s == "FALSE"@,
{
}

/// Only a lock that failed calls for a hint, and an error without a hint of its
/// own is told by its number.
pub proof fn law_hints(n: i32)
    ensures
        hint_of(LockOutcome::Locked) is None,
        hint_of(LockOutcome::Unsupported) is None,
        hint_of(LockOutcome::OutOfMemory) == Some(
            "raise ulimits.memlock in compose to ≥2 GiB (soft: 2147483648 / hard: 2147483648) — set EMBED_MLOCK_WEIGHTS=0 to suppress this warning"@,
        ),
        hint_of(LockOutcome::NotPermitted) == Some(
            "need CAP_IPC_LOCK or raised RLIMIT_MEMLOCK; set EMBED_MLOCK_WEIGHTS=0 to suppress"@,
        ),
        n >= 0 ==> hint_of(LockOutcome::Errno(n)) == Some("errno="@ + decimal(n as nat)),
        n < 0 ==> hint_of(LockOutcome::Errno(n)) == Some("errno="@ + ("-"@ + decimal((-n) as nat))),
{
}

/// The bytes that are kept are the bytes that were given, and they are locked
/// only where that was asked for and worked.
pub proof fn law_weights_are_kept<F: Fn(&Vec<u8>) -> LockOutcome>(
    buf: Vec<u8>,
    wanted: bool,
    lock: &F,
    kept: MlockedBuf,
    hint: Option<String>,
)
    requires
        keeps_weights(buf, wanted, lock, kept, hint),
    ensures
        kept.bytes() == buf@,
        kept.is_locked() ==> wanted && buf@.len() > 0 && hint is None && call_ensures(
            lock,
            (&buf,),
            LockOutcome::Locked,
        ),
        !wanted || buf@.len() == 0 ==> !kept.is_locked() && hint is None,
{
}

/// Where bytes are to be locked, and there are any, the system was asked to lock
/// them, and its answer decides: they count as locked exactly where it did, and
/// the hint is that of its answer.
pub proof fn law_lock_follows_the_system<F: Fn(&Vec<u8>) -> LockOutcome>(
    buf: Vec<u8>,
    lock: &F,
    kept: MlockedBuf,
    hint: Option<String>,
) -> (o: LockOutcome)
    requires
        keeps_weights(buf, true, lock, kept, hint),
        buf@.len() > 0,
    ensures
        call_ensures(lock, (&buf,), o),
        kept.is_locked() <==> o is Locked,
        hint is None <==> o is Locked || o is Unsupported,
        hint matches Some(s) ==> hint_of(o) == Some(s@),
{
    choose|o: LockOutcome|
        {
            &&& #[trigger] call_ensures(lock, (&buf,), o)
            &&& kept.is_locked() == (o is Locked)
            &&& match (hint, hint_of(o)) {
                (Some(s), Some(t)) => s@ == t,
                (None, None) => true,
                _ => false,
            }
        }
}

} // verus!
