//! Thread-safe audio buffers for concurrent processing.
//!
//! Three buffer types share one design: a handle owning a reference-counted
//! cell whose storage sits behind a verified reader-writer lock. Cloning a
//! handle shares the storage and the lock; all access goes through guards
//! obtained from the lock. A read guard views a snapshot of the storage;
//! a write guard owns the storage until it is released.
//!
//! Because the storage is shared between threads, operations on a handle
//! (such as [`Buffer::len`]) promise nothing about values observed later;
//! the exact contracts live on the guards, whose view is fixed while they
//! are held.

use vstd::prelude::*;
use vstd::rwlock::{ReadHandle, RwLock, RwLockPredicate, WriteHandle};
use vstd::arithmetic::power2::{pow2, lemma_pow2_pos, lemma_pow2_unfold, lemma_pow2_strictly_increases, lemma2_to64, lemma2_to64_rest};
use vstd::bits::{low_bits_mask, lemma_usize_low_bits_mask_is_mod};
use vstd::arithmetic::div_mod::lemma_small_mod;
use std::sync::Arc;

verus! {

/// Lock predicate for [`Buffer`]: any storage vector may be stored, so a
/// lossy `resize` may change the length.
pub struct AnyStorage;

impl<T> RwLockPredicate<Vec<T>> for AnyStorage {
    open spec fn inv(self, v: Vec<T>) -> bool {
        true
    }
}

/// Relies on std's `Arc::strong_count`: the number of handles currently
/// sharing the allocation. Nothing is promised of the result, since other
/// threads may clone or drop handles at any time.
#[verifier::external_body]
fn arc_strong_count<T>(arc: &Arc<T>) -> usize {
    Arc::strong_count(arc)
}

/// Thread-safe general-purpose sample buffer with read-write locking.
///
/// Clones share the same storage and lock. Reading and writing go through
/// [`BufferReadGuard`] and [`BufferWriteGuard`].
pub struct Buffer<T> {
    inner: Arc<RwLock<Vec<T>, AnyStorage>>,
}

/// RAII-style read guard for [`Buffer`]. Multiple read guards may exist at
/// once. The lock is released by [`BufferReadGuard::release`].
pub struct BufferReadGuard<'a, T> {
    handle: ReadHandle<'a, Vec<T>, AnyStorage>,
}

/// Exclusive write guard for [`Buffer`]. It owns the storage until
/// [`BufferWriteGuard::release`] stores it back and releases the lock.
pub struct BufferWriteGuard<'a, T> {
    data: Vec<T>,
    handle: WriteHandle<'a, Vec<T>, AnyStorage>,
}

impl<T: Copy + Default> Buffer<T> {
    /// Create a new buffer with the given length, with every slot holding
    /// the default sample.
    pub fn new(len: usize) -> Self {
        let default_value = T::default();
        let mut data: Vec<T> = Vec::new();
        let mut i: usize = 0;
        while i < len
            invariant
                i <= len,
                data@.len() == i,
            decreases len - i,
        {
            data.push(default_value);
            i += 1;
        }
        Buffer { inner: Arc::new(RwLock::new(data, Ghost(AnyStorage))) }
    }

    /// Create a buffer holding a copy of the given slice.
    pub fn from_slice(slice: &[T]) -> Self {
        let mut data: Vec<T> = Vec::new();
        let mut i: usize = 0;
        while i < slice.len()
            invariant
                i <= slice@.len(),
                data@ == slice@.subrange(0, i as int),
            decreases slice@.len() - i,
        {
            data.push(slice[i]);
            i += 1;
        }
        proof {
            assert(data@ == slice@.subrange(0, slice@.len() as int));
            assert(slice@.subrange(0, slice@.len() as int) == slice@);
        }
        Buffer { inner: Arc::new(RwLock::new(data, Ghost(AnyStorage))) }
    }

    /// Acquire a read lock for shared access, blocking until no writer
    /// holds the lock.
    pub fn read(&self) -> BufferReadGuard<'_, T> {
        BufferReadGuard { handle: self.inner.acquire_read() }
    }

    /// Acquire a read lock. This acquisition blocks until the lock is
    /// free rather than failing fast, so it always succeeds.
    pub fn try_read(&self) -> (r: Option<BufferReadGuard<'_, T>>)
        ensures
            r is Some,
    {
        Some(self.read())
    }

    /// Acquire a write lock for exclusive access, blocking until every
    /// other guard has been released.
    pub fn write(&self) -> BufferWriteGuard<'_, T> {
        let (data, handle) = self.inner.acquire_write();
        BufferWriteGuard { data, handle }
    }

    /// Acquire a write lock. This acquisition blocks until the lock is
    /// free rather than failing fast, so it always succeeds.
    pub fn try_write(&self) -> (r: Option<BufferWriteGuard<'_, T>>)
        ensures
            r is Some,
    {
        Some(self.write())
    }

    /// Replace the storage with a zeroed vector of the new length. The
    /// resize is lossy by design: previous contents are discarded.
    pub fn resize(&self, len: usize) {
        let default_value = T::default();
        let mut data: Vec<T> = Vec::new();
        let mut i: usize = 0;
        while i < len
            invariant
                i <= len,
                data@.len() == i,
            decreases len - i,
        {
            data.push(default_value);
            i += 1;
        }
        let (_, handle) = self.inner.acquire_write();
        handle.release_write(data);
    }

    /// The length of the storage at the moment the internal read lock was
    /// held. Another thread may resize the buffer at any time.
    pub fn len(&self) -> usize {
        let guard = self.read();
        let n = guard.len();
        guard.release();
        n
    }

    /// Whether the storage was empty at the moment it was observed.
    pub fn is_empty(&self) -> bool {
        self.len() == 0
    }

    /// The number of handles currently sharing this storage.
    pub fn ref_count(&self) -> usize {
        arc_strong_count(&self.inner)
    }
}

impl<T> Clone for Buffer<T> {
    /// A clone is a new handle to the same storage and lock.
    fn clone(&self) -> Self {
        Buffer { inner: Arc::clone(&self.inner) }
    }
}

impl<'a, T> View for BufferReadGuard<'a, T> {
    type V = Seq<T>;

    /// The storage viewed by this guard, fixed while the guard is held.
    closed spec fn view(&self) -> Seq<T> {
        self.handle.view()@
    }
}

impl<'a, T: Copy> BufferReadGuard<'a, T> {
    /// The number of samples viewed by this guard.
    pub fn len(&self) -> (n: usize)
        ensures
            n == self@.len(),
    {
        self.handle.borrow().len()
    }

    /// Whether the viewed storage is empty.
    pub fn is_empty(&self) -> (r: bool)
        ensures
            r == (self@.len() == 0),
    {
        self.len() == 0
    }

    /// The sample at the given index.
    pub fn at(&self, index: usize) -> (r: T)
        requires
            index < self@.len(),
        ensures
            r == self@[index as int],
    {
        self.handle.borrow()[index]
    }

    /// Release the read lock.
    pub fn release(self) {
        self.handle.release_read()
    }
}

impl<'a, T> View for BufferWriteGuard<'a, T> {
    type V = Seq<T>;

    /// The storage owned by this guard.
    closed spec fn view(&self) -> Seq<T> {
        self.data@
    }
}

impl<'a, T: Copy> BufferWriteGuard<'a, T> {
    /// The number of samples owned by this guard.
    pub fn len(&self) -> (n: usize)
        ensures
            n == self@.len(),
    {
        self.data.len()
    }

    /// Whether the owned storage is empty.
    pub fn is_empty(&self) -> (r: bool)
        ensures
            r == (self@.len() == 0),
    {
        self.len() == 0
    }

    /// The sample at the given index.
    pub fn at(&self, index: usize) -> (r: T)
        requires
            index < self@.len(),
        ensures
            r == self@[index as int],
    {
        self.data[index]
    }

    /// Store a sample at the given index.
    pub fn set(&mut self, index: usize, value: T)
        requires
            index < old(self)@.len(),
        ensures
            final(self)@ == old(self)@.update(index as int, value),
    {
        self.data[index] = value;
    }

    /// Store the owned storage back and release the write lock.
    pub fn release(self) {
        let BufferWriteGuard { data, handle } = self;
        handle.release_write(data);
    }
}

/// Writing a sample and then reading the same position yields that sample:
/// over any storage `s`, storing `x` at `i` and reading position `i` back
/// gives `x`, and no other position changes.
pub proof fn lemma_write_then_read<T>(s: Seq<T>, i: int, x: T)
    requires
        0 <= i < s.len(),
    ensures
        s.update(i, x)[i] == x,
        forall|j: int| 0 <= j < s.len() && j != i ==> s.update(i, x)[j] == s[j],
{
}

// ==========================================
// PushBuffer - sliding window for FIR kernels
// ==========================================

/// Storage of a [`PushBuffer`]: a window of samples and the fill index.
/// The fill index counts how many slots have been written since creation,
/// saturating at the window length.
pub struct PushStorage<T> {
    data: Vec<T>,
    index: usize,
}

/// Lock predicate for [`PushBuffer`]: the fill index never exceeds the
/// window length.
pub struct PushStorageInv;

impl<T> RwLockPredicate<PushStorage<T>> for PushStorageInv {
    closed spec fn inv(self, v: PushStorage<T>) -> bool {
        v.index <= v.data@.len()
    }
}

/// One push into a window: while the fill index `k` is below the window
/// length the sample lands at position `k`; once the window is full, the
/// window shifts left by one and the sample lands at the end. An empty
/// window ignores pushes.
pub open spec fn window_push<T>(s: Seq<T>, k: nat, v: T) -> (Seq<T>, nat) {
    if s.len() == 0 {
        (s, k)
    } else if k < s.len() {
        (s.update(k as int, v), k + 1)
    } else {
        (s.subrange(1, s.len() as int).push(v), k)
    }
}

/// A sequence of pushes into a window, oldest first.
pub open spec fn window_push_seq<T>(s: Seq<T>, k: nat, xs: Seq<T>) -> (Seq<T>, nat)
    decreases xs.len(),
{
    if xs.len() == 0 {
        (s, k)
    } else {
        let (s1, k1) = window_push::<T>(s, k, xs[0]);
        window_push_seq(s1, k1, xs.drop_first())
    }
}

/// Thread-safe sliding-window buffer for convolution and FIR filtering.
///
/// Pushing appends until the window is full, then shifts: the newest sample
/// is always at index `min(fill, len) - 1`, the oldest at index 0.
/// Clones share the same storage and lock.
pub struct PushBuffer<T> {
    inner: Arc<RwLock<PushStorage<T>, PushStorageInv>>,
}

/// Read guard for [`PushBuffer`]. Released by
/// [`PushBufferReadGuard::release`].
pub struct PushBufferReadGuard<'a, T> {
    handle: ReadHandle<'a, PushStorage<T>, PushStorageInv>,
}

/// Exclusive write guard for [`PushBuffer`]. Released by
/// [`PushBufferWriteGuard::release`].
pub struct PushBufferWriteGuard<'a, T> {
    data: PushStorage<T>,
    handle: WriteHandle<'a, PushStorage<T>, PushStorageInv>,
}

impl<T: Copy + Default> PushBuffer<T> {
    /// Create a window of the given length, each slot holding the default
    /// sample, with the fill index at zero. Creation always succeeds.
    pub fn new(len: usize) -> (r: Result<Self, ()>)
        ensures
            r is Ok,
    {
        let default_value = T::default();
        let mut data: Vec<T> = Vec::new();
        let mut i: usize = 0;
        while i < len
            invariant
                i <= len,
                data@.len() == i,
            decreases len - i,
        {
            data.push(default_value);
            i += 1;
        }
        let storage = PushStorage { data, index: 0 };
        Ok(PushBuffer { inner: Arc::new(RwLock::new(storage, Ghost(PushStorageInv))) })
    }

    /// Create a window holding a copy of the given slice, with the fill
    /// index at zero.
    pub fn from_slice(slice: &[T]) -> Self {
        let mut data: Vec<T> = Vec::new();
        let mut i: usize = 0;
        while i < slice.len()
            invariant
                i <= slice@.len(),
                data@ == slice@.subrange(0, i as int),
            decreases slice@.len() - i,
        {
            data.push(slice[i]);
            i += 1;
        }
        let storage = PushStorage { data, index: 0 };
        PushBuffer { inner: Arc::new(RwLock::new(storage, Ghost(PushStorageInv))) }
    }

    /// Acquire a read lock, blocking until no writer holds the lock.
    pub fn read(&self) -> (g: PushBufferReadGuard<'_, T>)
        ensures
            g.wf(),
    {
        PushBufferReadGuard { handle: self.inner.acquire_read() }
    }

    /// Acquire a read lock. This acquisition blocks until the lock is
    /// free rather than failing fast, so it always succeeds.
    pub fn try_read(&self) -> (r: Option<PushBufferReadGuard<'_, T>>)
        ensures
            r matches Some(g) && g.wf(),
    {
        Some(self.read())
    }

    /// Acquire a write lock, blocking until every other guard is released.
    pub fn write(&self) -> (g: PushBufferWriteGuard<'_, T>)
        ensures
            g.wf(),
    {
        let (data, handle) = self.inner.acquire_write();
        PushBufferWriteGuard { data, handle }
    }

    /// Acquire a write lock. This acquisition blocks until the lock is
    /// free rather than failing fast, so it always succeeds.
    pub fn try_write(&self) -> (r: Option<PushBufferWriteGuard<'_, T>>)
        ensures
            r matches Some(g) && g.wf(),
    {
        Some(self.write())
    }

    /// Replace the window with a default-filled one of the new length and
    /// reset the fill index. Previous contents are discarded; the resize
    /// always succeeds.
    pub fn resize(&self, len: usize) -> (r: Result<(), ()>)
        ensures
            r is Ok,
    {
        let default_value = T::default();
        let mut data: Vec<T> = Vec::new();
        let mut i: usize = 0;
        while i < len
            invariant
                i <= len,
                data@.len() == i,
            decreases len - i,
        {
            data.push(default_value);
            i += 1;
        }
        let (_, handle) = self.inner.acquire_write();
        handle.release_write(PushStorage { data, index: 0 });
        Ok(())
    }

    /// Push a sample, acquiring the write lock internally.
    pub fn push(&self, value: T) {
        let mut guard = self.write();
        guard.push(value);
        guard.release();
    }

    /// The fill index at the moment the internal read lock was held.
    pub fn get_index(&self) -> usize {
        let guard = self.read();
        let i = guard.get_index();
        guard.release();
        i
    }

    /// Set the fill index, clamped to the window length.
    pub fn set_index(&self, index: usize) {
        let (mut storage, handle) = self.inner.acquire_write();
        let len = storage.data.len();
        storage.index = if index < len {
            index
        } else {
            len
        };
        handle.release_write(storage);
    }

    /// The window length at the moment the internal read lock was held.
    pub fn len(&self) -> usize {
        let guard = self.read();
        let n = guard.len();
        guard.release();
        n
    }

    /// Whether the window was empty at the moment it was observed.
    pub fn is_empty(&self) -> bool {
        self.len() == 0
    }
}

impl<T> Clone for PushBuffer<T> {
    /// A clone is a new handle to the same storage and lock.
    fn clone(&self) -> Self {
        PushBuffer { inner: Arc::clone(&self.inner) }
    }
}

impl<'a, T> View for PushBufferReadGuard<'a, T> {
    type V = Seq<T>;

    /// The window viewed by this guard, fixed while the guard is held.
    closed spec fn view(&self) -> Seq<T> {
        self.handle.view().data@
    }
}

impl<'a, T: Copy> PushBufferReadGuard<'a, T> {
    /// The fill index viewed by this guard.
    pub closed spec fn index_spec(&self) -> nat {
        self.handle.view().index as nat
    }

    /// The fill index never exceeds the window length.
    pub open spec fn wf(&self) -> bool {
        self.index_spec() <= self@.len()
    }

    /// The window length.
    pub fn len(&self) -> (n: usize)
        ensures
            n == self@.len(),
    {
        self.handle.borrow().data.len()
    }

    /// Whether the window is empty.
    pub fn is_empty(&self) -> (r: bool)
        ensures
            r == (self@.len() == 0),
    {
        self.len() == 0
    }

    /// The current fill index.
    pub fn get_index(&self) -> (i: usize)
        ensures
            i == self.index_spec(),
    {
        self.handle.borrow().index
    }

    /// The sample at the given position of the window.
    pub fn at(&self, index: usize) -> (r: T)
        requires
            index < self@.len(),
        ensures
            r == self@[index as int],
    {
        self.handle.borrow().data[index]
    }

    /// Release the read lock.
    pub fn release(self) {
        self.handle.release_read()
    }
}

impl<'a, T> View for PushBufferWriteGuard<'a, T> {
    type V = Seq<T>;

    /// The window owned by this guard.
    closed spec fn view(&self) -> Seq<T> {
        self.data.data@
    }
}

impl<'a, T: Copy> PushBufferWriteGuard<'a, T> {
    /// The fill index owned by this guard.
    pub closed spec fn index_spec(&self) -> nat {
        self.data.index as nat
    }

    /// The fill index never exceeds the window length.
    pub open spec fn wf(&self) -> bool {
        self.index_spec() <= self@.len()
    }

    /// The window length.
    pub fn len(&self) -> (n: usize)
        ensures
            n == self@.len(),
    {
        self.data.data.len()
    }

    /// Whether the window is empty.
    pub fn is_empty(&self) -> (r: bool)
        ensures
            r == (self@.len() == 0),
    {
        self.len() == 0
    }

    /// The current fill index.
    pub fn get_index(&self) -> (i: usize)
        ensures
            i == self.index_spec(),
    {
        self.data.index
    }

    /// The sample at the given position of the window.
    pub fn at(&self, index: usize) -> (r: T)
        requires
            index < self@.len(),
        ensures
            r == self@[index as int],
    {
        self.data.data[index]
    }

    /// Store a sample at the given position of the window, leaving the
    /// fill index unchanged.
    pub fn set(&mut self, index: usize, value: T)
        requires
            index < old(self)@.len(),
        ensures
            final(self)@ == old(self)@.update(index as int, value),
            final(self).index_spec() == old(self).index_spec(),
    {
        self.data.data[index] = value;
    }

    /// Push a sample into the window: appended while the window is still
    /// filling, shifted in at the end once it is full.
    pub fn push(&mut self, value: T)
        requires
            old(self).wf(),
        ensures
            final(self).wf(),
            (final(self)@, final(self).index_spec()) == window_push(
                old(self)@,
                old(self).index_spec(),
                value,
            ),
    {
        let len = self.data.data.len();
        if len == 0 {
            return ;
        }
        if self.data.index < len {
            let idx = self.data.index;
            self.data.data[idx] = value;
            self.data.index = idx + 1;
        } else {
            let mut i: usize = 0;
            while i < len - 1
                invariant
                    len == self.data.data@.len(),
                    len >= 1,
                    i <= len - 1,
                    self.data.index == old(self).data.index,
                    forall|j: int|
                        0 <= j < i ==> self.data.data@[j] == old(self).data.data@[j + 1],
                    forall|j: int|
                        i <= j < len ==> self.data.data@[j] == old(self).data.data@[j],
                decreases len - i,
            {
                let next = self.data.data[i + 1];
                self.data.data[i] = next;
                i += 1;
            }
            self.data.data[len - 1] = value;
            proof {
                assert(self.data.data@ =~= old(self).data.data@.subrange(
                    1,
                    len as int,
                ).push(value));
            }
        }
    }

    /// Store the window back and release the write lock.
    pub fn release(self)
        requires
            self.wf(),
    {
        let PushBufferWriteGuard { data, handle } = self;
        handle.release_write(data);
    }
}

/// The sliding window keeps the most recent samples, newest at the end:
/// starting from a window of length `N >= 1` filled up to index `k`, after
/// pushing the samples `xs`, the window holds the last `N` samples of the
/// stream `first k samples ++ xs`, provided that stream has at least `N`
/// samples, and the fill index rests at `N`.
pub proof fn lemma_window_holds_last_n<T>(s: Seq<T>, k: nat, xs: Seq<T>)
    requires
        s.len() >= 1,
        k <= s.len(),
        k + xs.len() >= s.len(),
    ensures
        ({
            let stream = s.subrange(0, k as int) + xs;
            let (w, i) = window_push_seq(s, k, xs);
            w == stream.subrange(stream.len() - s.len(), stream.len() as int) && i == s.len()
        }),
    decreases xs.len(),
{
    let n = s.len();
    let stream = s.subrange(0, k as int) + xs;
    if xs.len() == 0 {
        assert(k == n);
        assert(stream =~= s);
        assert(stream.subrange(stream.len() - n, stream.len() as int) =~= s);
    } else {
        let (s1, k1) = window_push::<T>(s, k, xs[0]);
        lemma_window_holds_last_n(s1, k1, xs.drop_first());
        let stream1 = s1.subrange(0, k1 as int) + xs.drop_first();
        if k < n {
            assert(stream1 =~= stream);
        } else {
            assert(stream1 =~= s.subrange(1, n as int).push(xs[0]) + xs.drop_first());
            assert(stream =~= s + xs);
            assert(stream1 =~= stream.subrange(1, stream.len() as int));
        }
        let (w, i) = window_push_seq(s, k, xs);
        assert((w, i) == window_push_seq(s1, k1, xs.drop_first()));
        assert(stream1.subrange(stream1.len() - n, stream1.len() as int) =~= stream.subrange(
            stream.len() - n,
            stream.len() as int,
        ));
    }
}

// ==========================================
// CircularBuffer - power-of-two ring
// ==========================================

/// `m` is an all-ones bit pattern: `m + 1` is a power of two. Rings use
/// such masks so that `x & m` computes `x % (m + 1)`.
pub open spec fn is_pow2_mask(m: usize) -> bool {
    exists|n: nat| m == low_bits_mask(n)
}

/// Masking with any mask stays at or below the mask.
proof fn lemma_and_le(x: usize, m: usize)
    ensures
        x & m <= m,
{
    assert(x & m <= m) by (bit_vector);
}

/// A power of two that fits in a machine word has an exponent below the
/// word width.
proof fn lemma_pow2_fits_bits(k: nat)
    requires
        pow2(k) <= usize::MAX,
    ensures
        k < usize::BITS,
{
    if k >= usize::BITS as nat {
        if k > usize::BITS as nat {
            lemma_pow2_strictly_increases(usize::BITS as nat, k);
        }
        lemma2_to64();
        lemma2_to64_rest();
    }
}

/// With an all-ones mask, masking is reduction modulo the ring capacity.
proof fn lemma_mask_is_mod(x: usize, m: usize)
    requires
        is_pow2_mask(m),
        m < usize::MAX,
    ensures
        x & m == x % ((m + 1) as usize),
{
    let n = choose|n: nat| m == low_bits_mask(n);
    lemma_pow2_pos(n);
    lemma_pow2_fits_bits(n);
    lemma_usize_low_bits_mask_is_mod(x, n);
}

/// Storage of a [`CircularBuffer`]: samples plus wrapped read and write
/// positions, with the all-ones mask used for wrapping.
pub struct RingStorage<T> {
    data: Vec<T>,
    read: usize,
    write: usize,
    mask: usize,
}

/// Lock predicate for [`CircularBuffer`]: the capacity is the mask plus
/// one, the mask is all ones, and both positions are in range.
pub struct RingStorageInv;

impl<T> RwLockPredicate<RingStorage<T>> for RingStorageInv {
    closed spec fn inv(self, v: RingStorage<T>) -> bool {
        &&& v.data@.len() == v.mask + 1
        &&& v.mask < usize::MAX
        &&& is_pow2_mask(v.mask)
        &&& v.read <= v.mask
        &&& v.write <= v.mask
    }
}

/// The smallest power of two that is at least `len`, and at least 1.
///
/// The bound on `len` keeps the result inside the machine word; the one
/// input above it has no such power of two.
pub fn next_pow2(len: usize) -> (m: usize)
    requires
        len <= usize::MAX / 2 + 1,
    ensures
        m >= 1,
        m >= len,
        is_pow2_mask((m - 1) as usize),
        len <= 1 ==> m == 1,
        len > 1 ==> m < 2 * len,
{
    let ghost mut j: nat = 0;
    proof {
        lemma2_to64();
    }
    let mut m: usize = 1;
    while m < len
        invariant
            len <= usize::MAX / 2 + 1,
            m >= 1,
            m == pow2(j),
            j < usize::BITS,
            m == 1 || m < 2 * len,
        decreases 2 * len - m,
    {
        proof {
            assert(m <= usize::MAX / 2);
            assert(2 * (usize::MAX / 2) <= usize::MAX);
            lemma_pow2_unfold(j + 1);
            lemma_pow2_fits_bits(j + 1);
            j = j + 1;
        }
        m = m * 2;
    }
    proof {
        assert((m - 1) as usize == low_bits_mask(j));
    }
    m
}

/// Thread-safe ring buffer for delay lines.
///
/// The capacity is rounded up to a power of two so that positions wrap by
/// bit masking. Clones share the same storage and lock.
pub struct CircularBuffer<T> {
    inner: Arc<RwLock<RingStorage<T>, RingStorageInv>>,
}

/// Read guard for [`CircularBuffer`]. Released by
/// [`CircularBufferReadGuard::release`].
pub struct CircularBufferReadGuard<'a, T> {
    handle: ReadHandle<'a, RingStorage<T>, RingStorageInv>,
}

/// Exclusive write guard for [`CircularBuffer`]. Released by
/// [`CircularBufferWriteGuard::release`].
pub struct CircularBufferWriteGuard<'a, T> {
    data: RingStorage<T>,
    handle: WriteHandle<'a, RingStorage<T>, RingStorageInv>,
}

impl<T: Copy + Default> CircularBuffer<T> {
    /// Create a ring whose capacity is the smallest power of two at least
    /// as large as the requested length (at least 1), filled with the
    /// default sample, with both positions at zero.
    pub fn new(len: usize) -> (r: Result<Self, ()>)
        requires
            len <= usize::MAX / 2 + 1,
        ensures
            r is Ok,
    {
        let capacity = next_pow2(len);
        let default_value = T::default();
        let mut data: Vec<T> = Vec::new();
        let mut i: usize = 0;
        while i < capacity
            invariant
                i <= capacity,
                data@.len() == i,
            decreases capacity - i,
        {
            data.push(default_value);
            i += 1;
        }
        let storage = RingStorage { data, read: 0, write: 0, mask: capacity - 1 };
        Ok(CircularBuffer { inner: Arc::new(RwLock::new(storage, Ghost(RingStorageInv))) })
    }

    /// Create a ring holding a copy of the slice at its start, write
    /// position after the copied samples (wrapped), read position at zero.
    pub fn from_slice(slice: &[T]) -> Self
        requires
            slice@.len() <= usize::MAX / 2 + 1,
    {
        let capacity = next_pow2(slice.len());
        let default_value = T::default();
        let mut data: Vec<T> = Vec::new();
        let mut i: usize = 0;
        while i < capacity
            invariant
                i <= capacity,
                data@.len() == i,
                capacity >= slice@.len(),
                forall|j: int| 0 <= j < i && j < slice@.len() ==> data@[j] == slice@[j],
            decreases capacity - i,
        {
            if i < slice.len() {
                data.push(slice[i]);
            } else {
                data.push(default_value);
            }
            i += 1;
        }
        let mask = capacity - 1;
        let write = slice.len() & mask;
        proof {
            lemma_and_le(slice@.len() as usize, mask);
        }
        let storage = RingStorage { data, read: 0, write, mask };
        CircularBuffer { inner: Arc::new(RwLock::new(storage, Ghost(RingStorageInv))) }
    }

    /// Acquire a read lock, blocking until no writer holds the lock.
    pub fn read(&self) -> (g: CircularBufferReadGuard<'_, T>)
        ensures
            g.wf(),
    {
        CircularBufferReadGuard { handle: self.inner.acquire_read() }
    }

    /// Acquire a read lock. This acquisition blocks until the lock is
    /// free rather than failing fast, so it always succeeds.
    pub fn try_read(&self) -> (r: Option<CircularBufferReadGuard<'_, T>>)
        ensures
            r matches Some(g) && g.wf(),
    {
        Some(self.read())
    }

    /// Acquire a write lock, blocking until every other guard is released.
    pub fn write(&self) -> (g: CircularBufferWriteGuard<'_, T>)
        ensures
            g.wf(),
    {
        let (data, handle) = self.inner.acquire_write();
        CircularBufferWriteGuard { data, handle }
    }

    /// Acquire a write lock. This acquisition blocks until the lock is
    /// free rather than failing fast, so it always succeeds.
    pub fn try_write(&self) -> (r: Option<CircularBufferWriteGuard<'_, T>>)
        ensures
            r matches Some(g) && g.wf(),
    {
        Some(self.write())
    }

    /// Replace the ring with a default-filled one sized for the new
    /// length and reset both positions. Previous contents are discarded.
    pub fn resize(&self, len: usize) -> (r: Result<(), ()>)
        requires
            len <= usize::MAX / 2 + 1,
        ensures
            r is Ok,
    {
        let capacity = next_pow2(len);
        let default_value = T::default();
        let mut data: Vec<T> = Vec::new();
        let mut i: usize = 0;
        while i < capacity
            invariant
                i <= capacity,
                data@.len() == i,
            decreases capacity - i,
        {
            data.push(default_value);
            i += 1;
        }
        let (_, handle) = self.inner.acquire_write();
        handle.release_write(RingStorage { data, read: 0, write: 0, mask: capacity - 1 });
        Ok(())
    }

    /// Store a sample at the write position and advance it, acquiring the
    /// write lock internally.
    pub fn push(&self, value: T) {
        let mut guard = self.write();
        guard.push(value);
        guard.release();
    }

    /// Read the sample at the read position and advance it, acquiring the
    /// write lock internally.
    pub fn next(&self) -> T {
        let mut guard = self.write();
        let value = guard.next();
        guard.release();
        value
    }

    /// The sample at the read position, without advancing.
    pub fn peek(&self) -> T {
        let guard = self.read();
        let value = guard.peek();
        guard.release();
        value
    }

    /// The capacity at the moment it was observed: always at least 1
    /// and a power of two, by the lock's invariant.
    pub fn capacity(&self) -> (n: usize)
        ensures
            n >= 1,
            is_pow2_mask((n - 1) as usize),
    {
        let guard = self.read();
        let n = guard.capacity();
        proof {
            assert(n == guard.mask_spec() + 1);
        }
        guard.release();
        n
    }

    /// The logical length, equal to the capacity: always at least 1 and
    /// a power of two, by the lock's invariant.
    pub fn len(&self) -> (n: usize)
        ensures
            n >= 1,
            is_pow2_mask((n - 1) as usize),
    {
        let guard = self.read();
        let n = guard.len();
        proof {
            assert(n == guard.mask_spec() + 1);
        }
        guard.release();
        n
    }

    /// A ring always has capacity at least 1, so it is never empty.
    pub fn is_empty(&self) -> (r: bool)
        ensures
            !r,
    {
        let guard = self.read();
        let n = guard.capacity();
        guard.release();
        n == 0
    }

    /// Fill the ring with the default sample and reset both positions.
    pub fn clear(&self) {
        let mut guard = self.write();
        guard.clear();
        guard.release();
    }
}

impl<T> Clone for CircularBuffer<T> {
    /// A clone is a new handle to the same storage and lock.
    fn clone(&self) -> Self {
        CircularBuffer { inner: Arc::clone(&self.inner) }
    }
}

impl<'a, T> View for CircularBufferReadGuard<'a, T> {
    type V = Seq<T>;

    /// The ring contents viewed by this guard, fixed while it is held.
    closed spec fn view(&self) -> Seq<T> {
        self.handle.view().data@
    }
}

impl<'a, T: Copy> CircularBufferReadGuard<'a, T> {
    /// The read position viewed by this guard.
    pub closed spec fn read_spec(&self) -> nat {
        self.handle.view().read as nat
    }

    /// The write position viewed by this guard.
    pub closed spec fn write_spec(&self) -> nat {
        self.handle.view().write as nat
    }

    pub closed spec fn mask_spec(&self) -> usize {
        self.handle.view().mask
    }

    /// The capacity is the mask plus one (a power of two) and both
    /// positions are in range.
    pub open spec fn wf(&self) -> bool {
        &&& self@.len() >= 1
        &&& self.read_spec() < self@.len()
        &&& self.write_spec() < self@.len()
        &&& self@.len() == self.mask_spec() + 1
        &&& self.mask_spec() < usize::MAX
        &&& is_pow2_mask(self.mask_spec())
    }

    /// The logical length of the ring.
    pub fn len(&self) -> (n: usize)
        requires
            self.wf(),
        ensures
            n == self@.len(),
    {
        let n = self.handle.borrow().mask;
        n + 1
    }

    /// The capacity of the ring, equal to its logical length.
    pub fn capacity(&self) -> (n: usize)
        ensures
            n == self@.len(),
    {
        self.handle.borrow().data.len()
    }

    /// The current read position.
    pub fn get_read(&self) -> (r: usize)
        ensures
            r == self.read_spec(),
    {
        self.handle.borrow().read
    }

    /// The current write position.
    pub fn get_write(&self) -> (r: usize)
        ensures
            r == self.write_spec(),
    {
        self.handle.borrow().write
    }

    /// The sample at the read position, without advancing.
    pub fn peek(&self) -> (r: T)
        requires
            self.wf(),
        ensures
            r == self@[self.read_spec() as int],
    {
        let storage = self.handle.borrow();
        storage.data[storage.read]
    }

    /// The sample at the given offset past the read position, wrapped at
    /// the capacity.
    pub fn read_offset(&self, offset: usize) -> (r: T)
        requires
            self.wf(),
            self.read_spec() + offset <= usize::MAX,
        ensures
            r == self@[(self.read_spec() + offset) % (self@.len() as int)],
    {
        let storage = self.handle.borrow();
        proof {
            lemma_mask_is_mod((storage.read + offset) as usize, storage.mask);
        }
        storage.data[(storage.read + offset) & storage.mask]
    }

    /// The sample at the given position, wrapped at the capacity.
    pub fn at(&self, index: usize) -> (r: T)
        requires
            self.wf(),
        ensures
            r == self@[((index as nat) % self@.len()) as int],
    {
        let storage = self.handle.borrow();
        proof {
            lemma_mask_is_mod(index, storage.mask);
        }
        storage.data[index & storage.mask]
    }

    /// Release the read lock.
    pub fn release(self) {
        self.handle.release_read()
    }
}

impl<'a, T> View for CircularBufferWriteGuard<'a, T> {
    type V = Seq<T>;

    /// The ring contents owned by this guard.
    closed spec fn view(&self) -> Seq<T> {
        self.data.data@
    }
}

impl<'a, T: Copy> CircularBufferWriteGuard<'a, T> {
    /// The read position owned by this guard.
    pub closed spec fn read_spec(&self) -> nat {
        self.data.read as nat
    }

    /// The write position owned by this guard.
    pub closed spec fn write_spec(&self) -> nat {
        self.data.write as nat
    }

    pub closed spec fn mask_spec(&self) -> usize {
        self.data.mask
    }

    /// The capacity is the mask plus one (a power of two) and both
    /// positions are in range.
    pub open spec fn wf(&self) -> bool {
        &&& self@.len() >= 1
        &&& self.read_spec() < self@.len()
        &&& self.write_spec() < self@.len()
        &&& self@.len() == self.mask_spec() + 1
        &&& self.mask_spec() < usize::MAX
        &&& is_pow2_mask(self.mask_spec())
    }

    /// The logical length of the ring.
    pub fn len(&self) -> (n: usize)
        requires
            self.wf(),
        ensures
            n == self@.len(),
    {
        let n = self.data.mask;
        n + 1
    }

    /// The capacity of the ring, equal to its logical length.
    pub fn capacity(&self) -> (n: usize)
        ensures
            n == self@.len(),
    {
        self.data.data.len()
    }

    /// The current read position.
    pub fn get_read(&self) -> (r: usize)
        ensures
            r == self.read_spec(),
    {
        self.data.read
    }

    /// The current write position.
    pub fn get_write(&self) -> (r: usize)
        ensures
            r == self.write_spec(),
    {
        self.data.write
    }

    /// Store a sample at the write position and advance the position,
    /// wrapping at the capacity.
    pub fn push(&mut self, value: T)
        requires
            old(self).wf(),
        ensures
            final(self).wf(),
            final(self)@ == old(self)@.update(old(self).write_spec() as int, value),
            final(self).write_spec() == (old(self).write_spec() + 1) % old(self)@.len(),
            final(self).read_spec() == old(self).read_spec(),
    {
        let idx = self.data.write;
        self.data.data[idx] = value;
        proof {
            lemma_mask_is_mod((self.data.write + 1) as usize, self.data.mask);
        }
        self.data.write = (self.data.write + 1) & self.data.mask;
    }

    /// Read the sample at the read position and advance the position,
    /// wrapping at the capacity.
    pub fn next(&mut self) -> (r: T)
        requires
            old(self).wf(),
        ensures
            final(self).wf(),
            r == old(self)@[old(self).read_spec() as int],
            final(self)@ == old(self)@,
            final(self).read_spec() == (old(self).read_spec() + 1) % old(self)@.len(),
            final(self).write_spec() == old(self).write_spec(),
    {
        let value = self.data.data[self.data.read];
        proof {
            lemma_mask_is_mod((self.data.read + 1) as usize, self.data.mask);
        }
        self.data.read = (self.data.read + 1) & self.data.mask;
        value
    }

    /// The sample at the read position, without advancing.
    pub fn peek(&self) -> (r: T)
        requires
            self.wf(),
        ensures
            r == self@[self.read_spec() as int],
    {
        self.data.data[self.data.read]
    }

    /// The sample at the given offset past the read position, wrapped at
    /// the capacity.
    pub fn read_offset(&self, offset: usize) -> (r: T)
        requires
            self.wf(),
            self.read_spec() + offset <= usize::MAX,
        ensures
            r == self@[(self.read_spec() + offset) % (self@.len() as int)],
    {
        proof {
            lemma_mask_is_mod((self.data.read + offset) as usize, self.data.mask);
        }
        self.data.data[(self.data.read + offset) & self.data.mask]
    }

    /// Store a sample at the given offset past the write position,
    /// wrapped at the capacity, leaving both positions unchanged.
    pub fn write_offset(&mut self, offset: usize, value: T)
        requires
            old(self).wf(),
            old(self).write_spec() + offset <= usize::MAX,
        ensures
            final(self).wf(),
            final(self)@ == old(self)@.update(
                (old(self).write_spec() + offset) % (old(self)@.len() as int),
                value,
            ),
            final(self).read_spec() == old(self).read_spec(),
            final(self).write_spec() == old(self).write_spec(),
    {
        proof {
            lemma_mask_is_mod((self.data.write + offset) as usize, self.data.mask);
        }
        let idx = (self.data.write + offset) & self.data.mask;
        self.data.data[idx] = value;
    }

    /// Set the read position, wrapped at the capacity.
    pub fn set_read(&mut self, index: usize)
        requires
            old(self).wf(),
        ensures
            final(self).wf(),
            final(self)@ == old(self)@,
            final(self).read_spec() == (index as nat) % old(self)@.len(),
            final(self).write_spec() == old(self).write_spec(),
    {
        proof {
            lemma_mask_is_mod(index, self.data.mask);
        }
        self.data.read = index & self.data.mask;
    }

    /// Set the write position, wrapped at the capacity.
    pub fn set_write(&mut self, index: usize)
        requires
            old(self).wf(),
        ensures
            final(self).wf(),
            final(self)@ == old(self)@,
            final(self).write_spec() == (index as nat) % old(self)@.len(),
            final(self).read_spec() == old(self).read_spec(),
    {
        proof {
            lemma_mask_is_mod(index, self.data.mask);
        }
        self.data.write = index & self.data.mask;
    }

    /// The sample at the given position, wrapped at the capacity.
    pub fn at(&self, index: usize) -> (r: T)
        requires
            self.wf(),
        ensures
            r == self@[((index as nat) % self@.len()) as int],
    {
        proof {
            lemma_mask_is_mod(index, self.data.mask);
        }
        self.data.data[index & self.data.mask]
    }

    /// Release the write lock, storing the ring back.
    pub fn release(self)
        requires
            self.wf(),
    {
        let CircularBufferWriteGuard { data, handle } = self;
        handle.release_write(data);
    }
}

impl<'a, T: Copy + Default> CircularBufferWriteGuard<'a, T> {
    /// Fill the ring with the default sample and reset both positions.
    pub fn clear(&mut self)
        requires
            old(self).wf(),
        ensures
            final(self).wf(),
            final(self)@.len() == old(self)@.len(),
            forall|i: int|
                0 <= i < final(self)@.len() ==> T::default.ensures((), #[trigger] final(self)@[i]),
            final(self).read_spec() == 0,
            final(self).write_spec() == 0,
    {
        let default_value = T::default();
        let len = self.data.data.len();
        let mut i: usize = 0;
        while i < len
            invariant
                i <= len,
                len == self.data.data@.len(),
                self.data.mask == old(self).data.mask,
                self.data.read == old(self).data.read,
                self.data.write == old(self).data.write,
                T::default.ensures((), default_value),
                forall|j: int| 0 <= j < i ==> self.data.data@[j] == default_value,
            decreases len - i,
        {
            self.data.data[i] = default_value;
            i += 1;
        }
        self.data.read = 0;
        self.data.write = 0;
    }
}

/// One ring push: the sample lands at the write position, which advances
/// and wraps at the capacity. Mirrors [`CircularBufferWriteGuard::push`].
pub open spec fn ring_push<T>(s: Seq<T>, w: nat, v: T) -> (Seq<T>, nat)
    recommends
        s.len() >= 1,
        w < s.len(),
{
    (s.update(w as int, v), (w + 1) % s.len())
}

/// A sequence of ring pushes, oldest first.
pub open spec fn ring_push_seq<T>(s: Seq<T>, w: nat, xs: Seq<T>) -> (Seq<T>, nat)
    decreases xs.len(),
{
    if xs.len() == 0 {
        (s, w)
    } else {
        let (s1, w1) = ring_push::<T>(s, w, xs[0]);
        ring_push_seq(s1, w1, xs.drop_first())
    }
}

/// The samples that `n` successive reads starting at position `r` return,
/// the position advancing and wrapping as in
/// [`CircularBufferWriteGuard::next`].
pub open spec fn ring_reads<T>(s: Seq<T>, r: nat, n: nat) -> Seq<T>
    recommends
        s.len() >= 1,
        r < s.len(),
    decreases n,
{
    if n == 0 {
        Seq::empty()
    } else {
        seq![s[r as int]] + ring_reads(s, (r + 1) % s.len(), (n - 1) as nat)
    }
}

/// Pushes that do not wrap write the samples contiguously after the write
/// position and advance it by their number, wrapping only at the end.
proof fn lemma_ring_push_seq_linear<T>(s: Seq<T>, w: nat, xs: Seq<T>)
    requires
        s.len() >= 1,
        w < s.len(),
        w + xs.len() <= s.len(),
    ensures
        ring_push_seq(s, w, xs).0 =~= s.subrange(0, w as int) + xs + s.subrange(
            (w + xs.len()) as int,
            s.len() as int,
        ),
        ring_push_seq(s, w, xs).1 == (w + xs.len()) % s.len(),
    decreases xs.len(),
{
    if xs.len() == 0 {
        lemma_small_mod(w, s.len());
    } else {
        let (s1, w1) = ring_push::<T>(s, w, xs[0]);
        assert(s1 == s.update(w as int, xs[0]));
        if w + 1 < s.len() {
            lemma_small_mod(w + 1, s.len());
            assert(w1 == w + 1);
            lemma_ring_push_seq_linear(s1, w1, xs.drop_first());
            assert(s1.subrange(0, (w + 1) as int) =~= s.subrange(0, w as int) + seq![xs[0]]);
            assert(s1.subrange((w + 1 + xs.drop_first().len()) as int, s.len() as int)
                =~= s.subrange((w + xs.len()) as int, s.len() as int));
            assert(seq![xs[0]] + xs.drop_first() =~= xs);
        } else {
            assert(w + 1 == s.len());
            assert(xs.len() == 1);
            assert(w1 == (s.len() % s.len()));
            assert(s.len() % s.len() == 0) by {
                vstd::arithmetic::div_mod::lemma_mod_self_0(s.len() as int);
            }
            assert(ring_push_seq(s1, w1, xs.drop_first()) == (s1, w1));
            assert(ring_push_seq(s, w, xs).0 =~= s.subrange(0, w as int) + xs + s.subrange(
                (w + xs.len()) as int,
                s.len() as int,
            ));
        }
    }
}

/// Reads that do not wrap return the contiguous samples after the read
/// position.
proof fn lemma_ring_reads_linear<T>(s: Seq<T>, r: nat, n: nat)
    requires
        s.len() >= 1,
        r < s.len(),
        r + n <= s.len(),
    ensures
        ring_reads(s, r, n) =~= s.subrange(r as int, (r + n) as int),
    decreases n,
{
    if n == 0 {
    } else {
        if r + 1 < s.len() {
            lemma_small_mod(r + 1, s.len());
            lemma_ring_reads_linear(s, r + 1, (n - 1) as nat);
        } else {
            assert(r + 1 == s.len());
            assert(n == 1);
            assert(ring_reads(s, (r + 1) % s.len(), 0) =~= Seq::<T>::empty());
            assert(ring_reads(s, r, 1) =~= seq![s[r as int]]);
        }
    }
}

/// A fresh ring is first-in first-out: starting from read and write
/// positions at zero, pushing `k <= capacity` samples and then reading `k`
/// times returns exactly those samples in order; positions past the
/// pushed samples still hold the initial fill, and reading on, up to the
/// wrap, returns that fill. (Once the reads wrap past the capacity they
/// revisit the pushed samples, so nothing more is claimed.)
pub proof fn lemma_ring_first_in_first_out<T>(s: Seq<T>, xs: Seq<T>)
    requires
        s.len() >= 1,
        xs.len() <= s.len(),
    ensures
        ({
            let (s1, w1) = ring_push_seq(s, 0, xs);
            &&& ring_reads(s1, 0, xs.len()) =~= xs
            &&& w1 == xs.len() % s.len()
            &&& forall|j: int| xs.len() <= j < s.len() ==> s1[j] == s[j]
            &&& xs.len() < s.len() ==> ring_reads(s1, xs.len(), (s.len() - xs.len()) as nat)
                =~= s.subrange(xs.len() as int, s.len() as int)
        }),
{
    lemma_ring_push_seq_linear(s, 0, xs);
    let (s1, w1) = ring_push_seq(s, 0, xs);
    assert(s1 =~= xs + s.subrange(xs.len() as int, s.len() as int));
    lemma_ring_reads_linear(s1, 0, xs.len());
    assert(ring_reads(s1, 0, xs.len()) =~= s1.subrange(0, xs.len() as int));
    if xs.len() < s.len() {
        lemma_ring_reads_linear(s1, xs.len(), (s.len() - xs.len()) as nat);
        assert(s1.subrange(xs.len() as int, s.len() as int) =~= s.subrange(
            xs.len() as int,
            s.len() as int,
        ));
    }
}

} // verus!
