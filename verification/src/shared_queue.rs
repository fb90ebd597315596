//! Single-producer single-consumer ring buffer used between the two cores of
//! a dual core board. `N` slots hold at most `N - 1` messages: one slot stays
//! free so that a full queue and an empty one differ.

use vstd::prelude::*;

verus! {

/// Fixed-capacity FIFO queue over `N` slots, held inline so that the queue
/// and its messages occupy one block of memory that both cores can reach.
pub struct SharedQueue<T, const N: usize> {
    head: u32,
    tail: u32,
    slots: [Option<T>; N],
}

#[derive(Debug, Copy, Clone, PartialEq, Eq)]
pub enum PushError {
    Full,
}

impl<T, const N: usize> SharedQueue<T, N> {
    /// Number of messages held.
    pub closed spec fn count(self) -> nat {
        ((self.head + N - self.tail) % (N as int)) as nat
    }

    /// The messages held, oldest first.
    pub closed spec fn view(self) -> Seq<T> {
        Seq::new(self.count(), |k: int| self.slots@[(self.tail + k) % (N as int)]->Some_0)
    }

    /// The queue's internal invariant: head and tail index slots, and every
    /// slot between them holds a message.
    pub closed spec fn wf(self) -> bool {
        &&& 1 <= N <= u32::MAX
        &&& self.head < N
        &&& self.tail < N
        &&& forall|k: int| 0 <= k < self.count() ==> (#[trigger] self.slots@[(self.tail + k) % (N as int)]) is Some
    }

    /// The number of messages the queue can hold.
    pub open spec fn capacity() -> nat {
        (N - 1) as nat
    }

    /// An empty queue.
    pub fn new() -> (q: Self)
        requires
            1 <= N <= u32::MAX,
        ensures
            q.wf(),
            q.view() == Seq::<T>::empty(),
            q.view().len() <= Self::capacity(),
    {
        let slots: [Option<T>; N] = vacant_slots();
        let q = Self { head: 0, tail: 0, slots };
        assert(q.count() == 0) by {
            vstd::arithmetic::div_mod::lemma_mod_self_0(N as int);
        }
        assert(q.view() =~= Seq::<T>::empty());
        q
    }

    proof fn lemma_count_bound(self)
        requires
            self.wf(),
        ensures
            self.count() < N,
            self.head == (self.tail + self.count()) % (N as int),
            self.count() == if self.head >= self.tail {
                self.head - self.tail
            } else {
                self.head + N - self.tail
            },
    {
        let n = N as int;
        lemma_mod_small2(self.head + n - self.tail, n);
        lemma_mod_small2(self.tail + self.count(), n);
    }

    /// A well-formed queue holds at most `capacity()` messages.
    pub proof fn lemma_len_bound(self)
        requires
            self.wf(),
        ensures
            self.view().len() <= Self::capacity(),
    {
        self.lemma_count_bound();
    }

    /// Whether the queue holds no message.
    pub fn is_empty(&self) -> (r: bool)
        requires
            self.wf(),
        ensures
            r == (self.view().len() == 0),
    {
        proof {
            self.lemma_count_bound();
        }
        self.head == self.tail
    }

    /// Whether the queue holds `N - 1` messages.
    pub fn is_full(&self) -> (r: bool)
        requires
            self.wf(),
        ensures
            r == (self.view().len() == Self::capacity()),
    {
        proof {
            self.lemma_count_bound();
            vstd::arithmetic::div_mod::lemma_mod_bound(self.head + 1, N as int);
        }
        let next = (self.head + 1) % (N as u32);
        proof {
            lemma_mod_small2(self.head + 1, N as int);
        }
        next == self.tail
    }

    /// Append `value`, unless the queue is full.
    pub fn push(&mut self, value: T) -> (r: Result<(), PushError>)
        requires
            old(self).wf(),
        ensures
            final(self).wf(),
            old(self).view().len() == Self::capacity() ==> r == Err::<(), PushError>(PushError::Full)
                && final(self).view() == old(self).view(),
            old(self).view().len() < Self::capacity() ==> r == Ok::<(), PushError>(())
                && final(self).view() == old(self).view().push(value),
            final(self).view().len() <= Self::capacity(),
            final(self).view() == run(old(self).view(), seq![Some(value)], Self::capacity()).1,
            (r is Ok) <==> run(old(self).view(), seq![Some(value)], Self::capacity()).2 == seq![value],
    {
        proof {
            self.lemma_count_bound();
            lemma_run_one(old(self).view(), Some(value), Self::capacity());
        }
        if self.is_full() {
            assert(seq![value].len() == 1);
            return Err(PushError::Full);
        }
        proof {
            self.lemma_count_bound();
        }
        let ghost old_view = self.view();
        let ghost c = self.count();
        let head = self.head;
        let next = (head + 1) % (N as u32);
        self.slots[head as usize] = Some(value);
        memory_barrier();
        self.head = next;
        proof {
            let n = N as int;
            assert(c + 1 < n);
            assert(self.count() == c + 1) by {
                lemma_mod_small2(head + 1, n);
                lemma_mod_small2(next + n - self.tail, n);
            }
            assert forall|k: int| 0 <= k < self.count() implies (#[trigger] self.slots@[(self.tail + k) % (N as int)]) is Some by {
                lemma_mod_small2(self.tail + k, n);
                if k < c {
                    lemma_distinct_slot(self.tail as int, k, c as int, n);
                } else {
                    assert((self.tail + k) % n == head);
                }
            }
            assert(self.view() =~= old_view.push(value)) by {
                assert forall|k: int| 0 <= k < c implies #[trigger] self.slots@[(self.tail + k) % n] == old(self).slots@[(self.tail + k) % n] by {
                    lemma_mod_small2(self.tail + k, n);
                    lemma_distinct_slot(self.tail as int, k, c as int, n);
                }
            }
            self.lemma_count_bound();
        }
        Ok(())
    }

    /// Remove and return the oldest message, if any.
    pub fn pop(&mut self) -> (r: Option<T>)
        requires
            old(self).wf(),
        ensures
            final(self).wf(),
            old(self).view().len() == 0 ==> r is None && final(self).view() == old(self).view(),
            old(self).view().len() > 0 ==> r == Some(old(self).view()[0]) && final(self).view()
                == old(self).view().drop_first(),
            final(self).view().len() <= Self::capacity(),
            final(self).view() == run(old(self).view(), seq![None], Self::capacity()).1,
            run(old(self).view(), seq![None], Self::capacity()).0 == (match r {
                Some(v) => seq![v],
                None => Seq::<T>::empty(),
            }),
    {
        proof {
            self.lemma_count_bound();
            lemma_run_one(old(self).view(), None, Self::capacity());
        }
        if self.is_empty() {
            return None;
        }
        proof {
            self.lemma_count_bound();
        }
        let ghost old_view = self.view();
        let ghost c = self.count();
        let tail = self.tail;
        proof {
            let n = N as int;
            vstd::arithmetic::div_mod::lemma_small_mod(tail as nat, n as nat);
            assert(self.slots@[(self.tail + 0) % n] is Some);
        }
        memory_barrier();
        let mut taken: Option<T> = None;
        std::mem::swap(&mut taken, &mut self.slots[tail as usize]);
        let value = taken.unwrap();
        self.tail = (tail + 1) % (N as u32);
        proof {
            let n = N as int;
            assert(self.count() == c - 1) by {
                lemma_mod_small2(tail + 1, n);
                lemma_mod_small2(self.head + n - self.tail, n);
            }
            assert forall|k: int| 0 <= k < c - 1 implies #[trigger] self.slots@[(self.tail + k) % n] == old(self).slots@[(tail + (k + 1)) % n] by {
                lemma_shift_slot(tail as int, self.tail as int, k, n);
                lemma_distinct_slot(tail as int, k + 1, 0, n);
            }
            assert(self.view() =~= old_view.drop_first());
            self.lemma_count_bound();
        }
        Some(value)
    }
}

/// What `n` pops from a queue holding `s` return, in order, taking each
/// message as `pop` does: the oldest, leaving the rest.
pub open spec fn popped<T>(s: Seq<T>, n: nat) -> Seq<T>
    decreases n,
{
    if n == 0 || s.len() == 0 {
        Seq::empty()
    } else {
        seq![s[0]] + popped(s.drop_first(), (n - 1) as nat)
    }
}

/// Messages leave in the order they arrived: `n` pops from a queue holding
/// `s` return its first `n` messages.
pub proof fn lemma_fifo<T>(s: Seq<T>, n: nat)
    requires
        n <= s.len(),
    ensures
        popped(s, n) == s.take(n as int),
    decreases n,
{
    if n > 0 {
        lemma_fifo(s.drop_first(), (n - 1) as nat);
        assert(seq![s[0]] + s.drop_first().take(n - 1) =~= s.take(n as int));
    } else {
        assert(s.take(0) =~= Seq::<T>::empty());
    }
}

/// Running the operations `ops` on a queue holding `q` with room for `cap`
/// messages, as `push` and `pop` do: `Some(v)` pushes `v`, which is kept
/// unless `cap` messages are held; `None` pops the oldest message, if any.
/// The result: what the pops returned in order, what the queue holds after,
/// and the pushed values that were kept, in order.
pub open spec fn run<T>(q: Seq<T>, ops: Seq<Option<T>>, cap: nat) -> (Seq<T>, Seq<T>, Seq<T>)
    decreases ops.len(),
{
    if ops.len() == 0 {
        (Seq::empty(), q, Seq::empty())
    } else {
        let (out, held, kept) = run(q, ops.drop_last(), cap);
        match ops.last() {
            Some(v) => if held.len() < cap {
                (out, held.push(v), kept.push(v))
            } else {
                (out, held, kept)
            },
            None => if held.len() > 0 {
                (out.push(held[0]), held.drop_first(), kept)
            } else {
                (out, held, kept)
            },
        }
    }
}

/// First in, first out, whatever the interleaving of pushes and pops: the
/// messages popped so far followed by those still held are the messages held
/// at the start followed by the pushed messages that were kept, in order.
pub proof fn lemma_fifo_interleaved<T>(q: Seq<T>, ops: Seq<Option<T>>, cap: nat)
    ensures
        run(q, ops, cap).0 + run(q, ops, cap).1 == q + run(q, ops, cap).2,
    decreases ops.len(),
{
    if ops.len() == 0 {
        assert(Seq::<T>::empty() + q =~= q + Seq::<T>::empty());
    } else {
        lemma_fifo_interleaved(q, ops.drop_last(), cap);
        let (out, held, kept) = run(q, ops.drop_last(), cap);
        match ops.last() {
            Some(v) => {
                if held.len() < cap {
                    assert(out + held.push(v) =~= (out + held).push(v));
                    assert(q + kept.push(v) =~= (q + kept).push(v));
                }
            },
            None => {
                if held.len() > 0 {
                    assert(out.push(held[0]) + held.drop_first() =~= out + held);
                }
            },
        }
    }
}

/// One operation run on a queue holding `q`: a push keeps its value unless
/// `cap` messages are held, a pop takes the oldest message if there is one.
pub proof fn lemma_run_one<T>(q: Seq<T>, op: Option<T>, cap: nat)
    ensures
        run(q, seq![op], cap) == (match op {
            Some(v) => if q.len() < cap {
                (Seq::<T>::empty(), q.push(v), seq![v])
            } else {
                (Seq::<T>::empty(), q, Seq::<T>::empty())
            },
            None => if q.len() > 0 {
                (seq![q[0]], q.drop_first(), Seq::<T>::empty())
            } else {
                (Seq::<T>::empty(), q, Seq::<T>::empty())
            },
        }),
{
    assert(seq![op].drop_last() =~= Seq::<Option<T>>::empty());
    assert(run(q, Seq::<Option<T>>::empty(), cap) == (Seq::<T>::empty(), q, Seq::<T>::empty()));
    match op {
        Some(v) => {
            assert(Seq::<T>::empty().push(v) =~= seq![v]);
        },
        None => {
            if q.len() > 0 {
                assert(Seq::<T>::empty().push(q[0]) =~= seq![q[0]]);
            }
        },
    }
}

/// Running operations one after another is running them all at once: after
/// `ops`, one more operation `op` continues from the queue that `ops` left,
/// and what it returns and keeps follows what `ops` returned and kept. The
/// contracts of `push` and `pop` each state one step of `run` from the
/// queue's view, so this is the step by which a sequence of calls is
/// followed in `run`.
pub proof fn lemma_run_append<T>(q: Seq<T>, ops: Seq<Option<T>>, op: Option<T>, cap: nat)
    ensures
        ({
            let before = run(q, ops, cap);
            let step = run(before.1, seq![op], cap);
            run(q, ops.push(op), cap) == (before.0 + step.0, step.1, before.2 + step.2)
        }),
{
    let before = run(q, ops, cap);
    lemma_run_one(before.1, op, cap);
    assert(ops.push(op).drop_last() =~= ops);
    assert(before.0 + Seq::<T>::empty() =~= before.0);
    assert(before.2 + Seq::<T>::empty() =~= before.2);
    let held = before.1;
    match op {
        Some(v) => {
            assert(before.2 + seq![v] =~= before.2.push(v));
        },
        None => {
            if held.len() > 0 {
                assert(before.0 + seq![held[0]] =~= before.0.push(held[0]));
            }
        },
    }
}

/// Running pushes and pops on a queue that holds at most `cap` messages
/// leaves it holding at most `cap` messages.
pub proof fn lemma_run_within_capacity<T>(q: Seq<T>, ops: Seq<Option<T>>, cap: nat)
    requires
        q.len() <= cap,
    ensures
        run(q, ops, cap).1.len() <= cap,
    decreases ops.len(),
{
    if ops.len() > 0 {
        lemma_run_within_capacity(q, ops.drop_last(), cap);
    }
}

proof fn lemma_mod_small2(x: int, n: int)
    requires
        n >= 1,
        0 <= x < 2 * n,
    ensures
        x % n == if x < n {
            x
        } else {
            x - n
        },
{
    if x < n {
        vstd::arithmetic::div_mod::lemma_small_mod(x as nat, n as nat);
    } else {
        vstd::arithmetic::div_mod::lemma_small_mod((x - n) as nat, n as nat);
        vstd::arithmetic::div_mod::lemma_mod_add_multiples_vanish(x - n, n);
    }
}

/// Two different positions less than `n` apart from `t` land in different slots.
proof fn lemma_distinct_slot(t: int, k: int, c: int, n: int)
    requires
        n >= 1,
        0 <= t < n,
        0 <= k < n,
        0 <= c < n,
        k != c,
    ensures
        (t + k) % n != (t + c) % n,
{
    lemma_mod_small2(t + k, n);
    lemma_mod_small2(t + c, n);
}

/// Advancing the start by one slot shifts every position by one.
proof fn lemma_shift_slot(t: int, t2: int, k: int, n: int)
    requires
        n >= 1,
        0 <= t < n,
        t2 == (t + 1) % n,
        0 <= k < n - 1,
    ensures
        (t2 + k) % n == (t + (k + 1)) % n,
{
    lemma_mod_small2(t + 1, n);
    lemma_mod_small2(t2 + k, n);
    lemma_mod_small2(t + k + 1, n);
}

/// `core::sync::atomic::fence` with sequentially consistent ordering, a data
/// memory barrier on the Cortex-M cores: a slot written before it is visible
/// to the other core before the index written after it. It returns nothing
/// and changes no value that the contracts speak of.
#[verifier::external_body]
fn memory_barrier() {
    core::sync::atomic::fence(core::sync::atomic::Ordering::SeqCst)
}

/// A slot that holds no message.
fn vacant_slot<T>() -> (r: Option<T>)
    ensures
        r is None,
{
    None
}

/// `core::array::from_fn`, called with a closure that returns a vacant slot
/// for every index: the array it builds holds `N` slots, each `None`.
#[verifier::external_body]
fn vacant_slots<T, const N: usize>() -> (r: [Option<T>; N])
    ensures
        forall|i: int| 0 <= i < N ==> (#[trigger] r@[i]) is None,
{
    core::array::from_fn(|_| vacant_slot())
}

} // verus!
