//! Raw write-ahead-log byte sinks and durability policy.

use crate::error::StorageError;
use vstd::prelude::*;

verus! {

/// A raw append-only destination for already framed WAL bytes.
///
/// Each relation names what one of the calls may do, so that contracts can say which calls were
/// made and with what. A backend that does not say more promises nothing by them.
pub trait WalBackend: Sized {
    /// [`WalBackend::append`] may turn this backend into `after` and return `out`.
    open spec fn appends(
        &self,
        bytes: Seq<u8>,
        after: Self,
        out: Result<(), StorageError>,
    ) -> bool {
        true
    }

    /// [`WalBackend::flush`] may turn this backend into `after` and return `out`.
    open spec fn flushes(&self, after: Self, out: Result<(), StorageError>) -> bool {
        true
    }

    /// [`WalBackend::sync`] may turn this backend into `after` and return `out`.
    open spec fn syncs(&self, after: Self, out: Result<(), StorageError>) -> bool {
        true
    }

    /// Appends all bytes or returns an error.
    fn append(&mut self, bytes: &[u8]) -> (out: Result<(), StorageError>)
        ensures
            old(self).appends(bytes@, *final(self), out),
    ;

    /// Flushes userspace buffers to the operating system.
    fn flush(&mut self) -> (out: Result<(), StorageError>)
        ensures
            old(self).flushes(*final(self), out),
    ;

    /// Requests that appended bytes reach stable storage.
    fn sync(&mut self) -> (out: Result<(), StorageError>)
        ensures
            old(self).syncs(*final(self), out),
    ;
}

/// The model of a [`MemoryWal`].
#[verifier::ext_equal]
pub struct MemoryWalView {
    /// All bytes appended so far.
    pub bytes: Seq<u8>,
    /// Number of append calls.
    pub append_count: usize,
    /// Number of flush calls.
    pub flush_count: usize,
    /// Number of sync calls.
    pub sync_count: usize,
}

/// In-memory WAL sink intended for deterministic tests and development. Its counters wrap
/// around.
#[derive(Debug, Clone, PartialEq, Eq)]
pub struct MemoryWal {
    bytes: Vec<u8>,
    append_count: usize,
    flush_count: usize,
    sync_count: usize,
}

impl View for MemoryWal {
    type V = MemoryWalView;

    closed spec fn view(&self) -> MemoryWalView {
        MemoryWalView {
            bytes: self.bytes@,
            append_count: self.append_count,
            flush_count: self.flush_count,
            sync_count: self.sync_count,
        }
    }
}

impl Default for MemoryWal {
    fn default() -> (out: MemoryWal)
        ensures
            out@ == (MemoryWalView {
                bytes: seq![],
                append_count: 0,
                flush_count: 0,
                sync_count: 0,
            }),
    {
        MemoryWal::new()
    }
}

impl MemoryWal {
    /// Creates an empty in-memory WAL.
    pub fn new() -> (out: MemoryWal)
        ensures
            out@ == (MemoryWalView {
                bytes: seq![],
                append_count: 0,
                flush_count: 0,
                sync_count: 0,
            }),
    {
        MemoryWal::from_bytes(Vec::new())
    }

    /// Creates an in-memory WAL that holds `bytes` already.
    pub fn from_bytes(bytes: Vec<u8>) -> (out: MemoryWal)
        ensures
            out@ == (MemoryWalView {
                bytes: bytes@,
                append_count: 0,
                flush_count: 0,
                sync_count: 0,
            }),
    {
        MemoryWal { bytes, append_count: 0, flush_count: 0, sync_count: 0 }
    }

    /// Returns all bytes appended so far.
    pub fn bytes(&self) -> (out: &[u8])
        ensures
            out@ == self@.bytes,
    {
        self.bytes.as_slice()
    }

    /// Returns the number of append calls.
    pub fn append_count(&self) -> (out: usize)
        ensures
            out == self@.append_count,
    {
        self.append_count
    }

    /// Returns the number of flush calls.
    pub fn flush_count(&self) -> (out: usize)
        ensures
            out == self@.flush_count,
    {
        self.flush_count
    }

    /// Returns the number of sync calls.
    pub fn sync_count(&self) -> (out: usize)
        ensures
            out == self@.sync_count,
    {
        self.sync_count
    }
}

impl WalBackend for MemoryWal {
    open spec fn appends(
        &self,
        bytes: Seq<u8>,
        after: MemoryWal,
        out: Result<(), StorageError>,
    ) -> bool {
        &&& out is Ok
        &&& after@ == (MemoryWalView {
            bytes: self@.bytes + bytes,
            append_count: self@.append_count.wrapping_add(1),
            ..self@
        })
    }

    open spec fn flushes(&self, after: MemoryWal, out: Result<(), StorageError>) -> bool {
        &&& out is Ok
        &&& after@ == (MemoryWalView {
            flush_count: self@.flush_count.wrapping_add(1),
            ..self@
        })
    }

    open spec fn syncs(&self, after: MemoryWal, out: Result<(), StorageError>) -> bool {
        &&& out is Ok
        &&& after@ == (MemoryWalView {
            sync_count: self@.sync_count.wrapping_add(1),
            ..self@
        })
    }

    fn append(&mut self, bytes: &[u8]) -> (out: Result<(), StorageError>) {
        self.bytes.extend_from_slice(bytes);
        self.append_count = self.append_count.wrapping_add(1);
        assert(self.bytes@ =~= old(self)@.bytes + bytes@);
        Ok(())
    }

    fn flush(&mut self) -> (out: Result<(), StorageError>) {
        self.flush_count = self.flush_count.wrapping_add(1);
        Ok(())
    }

    fn sync(&mut self) -> (out: Result<(), StorageError>) {
        self.sync_count = self.sync_count.wrapping_add(1);
        Ok(())
    }
}

/// Durability requested after one WAL append.
#[derive(Debug, Clone, Copy, PartialEq, Eq, Structural)]
pub enum Durability {
    /// Return after appending to the backend's current buffer.
    Buffered,
    /// Flush userspace buffers after appending.
    Flush,
    /// Request stable-storage synchronization after appending.
    Sync,
}

/// What persisting `bytes` calls: one append, and where it succeeds what the policy asks for. The
/// first failure is the outcome.
pub open spec fn persist_calls<B: WalBackend>(
    before: B,
    after: B,
    bytes: Seq<u8>,
    durability: Durability,
    out: Result<(), StorageError>,
) -> bool {
    ||| out is Err && before.appends(bytes, after, out)
    ||| exists|middle: B|
        #[trigger] before.appends(bytes, middle, Ok(())) && match durability {
            Durability::Buffered => after == middle && out is Ok,
            Durability::Flush => middle.flushes(after, out),
            Durability::Sync => middle.syncs(after, out),
        }
}

/// Persisting to memory always succeeds. The bytes stand behind those of before, after one append
/// and at most one other call, which is that of the policy.
pub proof fn law_memory_log_holds_what_was_persisted(
    before: MemoryWal,
    after: MemoryWal,
    bytes: Seq<u8>,
    durability: Durability,
    out: Result<(), StorageError>,
)
    requires
        persist_calls(before, after, bytes, durability, out),
    ensures
        out is Ok,
        after@ == (MemoryWalView {
            bytes: before@.bytes + bytes,
            append_count: before@.append_count.wrapping_add(1),
            flush_count: if durability == Durability::Flush {
                before@.flush_count.wrapping_add(1)
            } else {
                before@.flush_count
            },
            sync_count: if durability == Durability::Sync {
                before@.sync_count.wrapping_add(1)
            } else {
                before@.sync_count
            },
        }),
{
}

/// A call of a log.
pub enum WalCall {
    /// [`WalBackend::append`] with the given bytes.
    Append(Seq<u8>),
    /// [`WalBackend::flush`].
    Flush,
    /// [`WalBackend::sync`].
    Sync,
}

/// A call may turn one backend into another and return `out`.
pub open spec fn called<B: WalBackend>(
    before: B,
    after: B,
    call: WalCall,
    out: Result<(), StorageError>,
) -> bool {
    match call {
        WalCall::Append(bytes) => before.appends(bytes, after, out),
        WalCall::Flush => before.flushes(after, out),
        WalCall::Sync => before.syncs(after, out),
    }
}

/// Everything that calls append, in order.
pub open spec fn appended(calls: Seq<WalCall>) -> Seq<u8>
    decreases calls.len(),
{
    if calls.len() == 0 {
        seq![]
    } else {
        appended(calls.drop_last()) + match calls.last() {
            WalCall::Append(bytes) => bytes,
            _ => seq![],
        }
    }
}

/// The number of calls like the given one.
pub open spec fn count_calls(calls: Seq<WalCall>, like: WalCall) -> nat
    decreases calls.len(),
{
    if calls.len() == 0 {
        0
    } else {
        count_calls(calls.drop_last(), like) + match (calls.last(), like) {
            (WalCall::Append(_), WalCall::Append(_)) => 1nat,
            (WalCall::Flush, WalCall::Flush) => 1,
            (WalCall::Sync, WalCall::Sync) => 1,
            _ => 0,
        }
    }
}

/// A counter that counts `count` more, around the end of its range.
pub open spec fn counted(start: usize, count: nat) -> usize
    decreases count,
{
    if count == 0 {
        start
    } else {
        counted(start, (count - 1) as nat).wrapping_add(1)
    }
}

/// A counter that does not reach the end of its range counts exactly.
pub proof fn law_counter_counts_exactly_within_its_range(start: usize, count: nat)
    requires
        start + count <= usize::MAX,
    ensures
        counted(start, count) == start + count,
    decreases count,
{
    if count > 0 {
        law_counter_counts_exactly_within_its_range(start, (count - 1) as nat);
    }
}

/// After any calls an in-memory log holds what it held and then everything that was appended, in
/// order, and its counters have counted the calls. Every call succeeds.
pub proof fn law_memory_log_holds_every_append(
    states: Seq<MemoryWal>,
    calls: Seq<WalCall>,
    outs: Seq<Result<(), StorageError>>,
)
    requires
        states.len() == calls.len() + 1,
        outs.len() == calls.len(),
        forall|i: int|
            0 <= i < calls.len() ==> called(states[i], states[i + 1], #[trigger] calls[i], outs[i]),
    ensures
        states.last()@ == (MemoryWalView {
            bytes: states[0]@.bytes + appended(calls),
            append_count: counted(
                states[0]@.append_count,
                count_calls(calls, WalCall::Append(seq![])),
            ),
            flush_count: counted(states[0]@.flush_count, count_calls(calls, WalCall::Flush)),
            sync_count: counted(states[0]@.sync_count, count_calls(calls, WalCall::Sync)),
        }),
        forall|i: int| 0 <= i < calls.len() ==> (#[trigger] outs[i]) is Ok,
    decreases calls.len(),
{
    if calls.len() == 0 {
        assert(states[0]@.bytes + appended(calls) =~= states[0]@.bytes);
    } else {
        let front = calls.drop_last();
        let n = front.len() as int;
        assert forall|i: int| 0 <= i < front.len() implies called(
            states.drop_last()[i],
            states.drop_last()[i + 1],
            #[trigger] front[i],
            outs.drop_last()[i],
        ) by {
            assert(calls[i] == front[i]);
        }
        law_memory_log_holds_every_append(states.drop_last(), front, outs.drop_last());
        assert(called(states[n], states[n + 1], calls[n], outs[n]));
        assert(states.drop_last().last() == states[n]);
        assert forall|i: int| 0 <= i < calls.len() implies (#[trigger] outs[i]) is Ok by {
            if i < n {
                assert(outs.drop_last()[i] == outs[i]);
            }
        }
        assert(states.last()@ =~= (MemoryWalView {
            bytes: states[0]@.bytes + appended(calls),
            append_count: counted(
                states[0]@.append_count,
                count_calls(calls, WalCall::Append(seq![])),
            ),
            flush_count: counted(states[0]@.flush_count, count_calls(calls, WalCall::Flush)),
            sync_count: counted(states[0]@.sync_count, count_calls(calls, WalCall::Sync)),
        }));
    }
}

/// What remains to be called after an append.
#[derive(Debug, Clone, Copy, PartialEq, Eq, Structural)]
pub enum PolicyCall {
    /// Nothing.
    Nothing,
    /// [`WalBackend::flush`].
    Flush,
    /// [`WalBackend::sync`].
    Sync,
}

/// Decides what remains to be called after an append with the given result.
pub fn policy_after(appended: Result<(), StorageError>, durability: Durability) -> (out: Result<
    PolicyCall,
    StorageError,
>)
    ensures
        out == match appended {
            Err(error) => Err(error),
            Ok(()) => match durability {
                Durability::Buffered => Ok(PolicyCall::Nothing),
                Durability::Flush => Ok(PolicyCall::Flush),
                Durability::Sync => Ok(PolicyCall::Sync),
            },
        },
{
    match appended {
        Err(error) => Err(error),
        Ok(()) => match durability {
            Durability::Buffered => Ok(PolicyCall::Nothing),
            Durability::Flush => Ok(PolicyCall::Flush),
            Durability::Sync => Ok(PolicyCall::Sync),
        },
    }
}

/// Appends an owned byte vector and applies the requested durability policy.
///
/// `Sync` calls [`WalBackend::sync`] directly; backends are responsible for any flushing
/// required by their sync primitive. The first append, flush or sync error is returned. Whether
/// there is one is up to the backend.
pub fn persist<B: WalBackend>(backend: &mut B, bytes: Vec<u8>, durability: Durability) -> (out:
    Result<(), StorageError>)
    ensures
        persist_calls(*old(backend), *final(backend), bytes@, durability, out),
{
    let appended = backend.append(bytes.as_slice());
    proof {
        if let Ok(done) = appended {
            assert(done == ());
            assert(old(backend).appends(bytes@, *backend, Ok(())));
        }
    }
    match policy_after(appended, durability)? {
        PolicyCall::Nothing => Ok(()),
        PolicyCall::Flush => backend.flush(),
        PolicyCall::Sync => backend.sync(),
    }
}

} // verus!
