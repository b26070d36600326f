//! Queue laws: how the buffer behaves over whole sequences of operations,
//! stated and proved over the same `Seq` transitions that the contracts of
//! `push_back`, `push_front`, `pop_back` and `pop_front` ensure.

use vstd::prelude::*;

verus! {

/// One operation on one end of the buffer: an insertion carrying the
/// inserted value, or a removal.
pub enum Op<T> {
    Push(T),
    Pop,
}

/// Contents after applying `ops` to an initially empty buffer of capacity
/// `cap`, pushing at the back and popping at the front: exactly the view
/// transitions that `push_back` and `pop_front` ensure. A push into a full
/// buffer and a pop from an empty one are refused and change nothing.
pub open spec fn run_back_front<T>(ops: Seq<Op<T>>, cap: nat) -> Seq<T>
    decreases ops.len(),
{
    if ops.len() == 0 {
        Seq::empty()
    } else {
        let q = run_back_front(ops.drop_last(), cap);
        match ops.last() {
            Op::Push(v) => if q.len() < cap {
                q.push(v)
            } else {
                q
            },
            Op::Pop => if q.len() > 0 {
                q.drop_first()
            } else {
                q
            },
        }
    }
}

/// The values of the accepted pushes of a `run_back_front` run, in order.
pub open spec fn pushed_back_front<T>(ops: Seq<Op<T>>, cap: nat) -> Seq<T>
    decreases ops.len(),
{
    if ops.len() == 0 {
        Seq::empty()
    } else {
        let p = pushed_back_front(ops.drop_last(), cap);
        let q = run_back_front(ops.drop_last(), cap);
        match ops.last() {
            Op::Push(v) => if q.len() < cap {
                p.push(v)
            } else {
                p
            },
            Op::Pop => p,
        }
    }
}

/// The values returned by the accepted pops of a `run_back_front` run, in
/// order.
pub open spec fn popped_back_front<T>(ops: Seq<Op<T>>, cap: nat) -> Seq<T>
    decreases ops.len(),
{
    if ops.len() == 0 {
        Seq::empty()
    } else {
        let o = popped_back_front(ops.drop_last(), cap);
        let q = run_back_front(ops.drop_last(), cap);
        match ops.last() {
            Op::Push(_) => o,
            Op::Pop => if q.len() > 0 {
                o.push(q.first())
            } else {
                o
            },
        }
    }
}

/// FIFO law for `push_back`/`pop_front`: over any sequence of such
/// operations on an initially empty buffer, the values already popped
/// followed by the values still stored are exactly the values pushed — so
/// the pops return the pushed values in push order.
pub proof fn lemma_fifo_back_front<T>(ops: Seq<Op<T>>, cap: nat)
    ensures
        pushed_back_front(ops, cap) == popped_back_front(ops, cap) + run_back_front(ops, cap),
        popped_back_front(ops, cap) == pushed_back_front(ops, cap).subrange(
            0,
            popped_back_front(ops, cap).len() as int,
        ),
    decreases ops.len(),
{
    if ops.len() == 0 {
        assert(pushed_back_front(ops, cap) =~= popped_back_front(ops, cap) + run_back_front(
            ops,
            cap,
        ));
    } else {
        lemma_fifo_back_front(ops.drop_last(), cap);
        let p = pushed_back_front(ops.drop_last(), cap);
        let o = popped_back_front(ops.drop_last(), cap);
        let q = run_back_front(ops.drop_last(), cap);
        match ops.last() {
            Op::Push(v) => {
                if q.len() < cap {
                    assert(p.push(v) =~= o + q.push(v));
                }
            },
            Op::Pop => {
                if q.len() > 0 {
                    assert(p =~= o.push(q.first()) + q.drop_first());
                }
            },
        }
    }
    assert(popped_back_front(ops, cap) =~= pushed_back_front(ops, cap).subrange(
        0,
        popped_back_front(ops, cap).len() as int,
    ));
}

/// Contents after applying `ops` to an initially empty buffer of capacity
/// `cap`, pushing at the front and popping at the back: exactly the view
/// transitions that `push_front` and `pop_back` ensure.
pub open spec fn run_front_back<T>(ops: Seq<Op<T>>, cap: nat) -> Seq<T>
    decreases ops.len(),
{
    if ops.len() == 0 {
        Seq::empty()
    } else {
        let q = run_front_back(ops.drop_last(), cap);
        match ops.last() {
            Op::Push(v) => if q.len() < cap {
                seq![v] + q
            } else {
                q
            },
            Op::Pop => if q.len() > 0 {
                q.drop_last()
            } else {
                q
            },
        }
    }
}

/// The values of the accepted pushes of a `run_front_back` run, in order.
pub open spec fn pushed_front_back<T>(ops: Seq<Op<T>>, cap: nat) -> Seq<T>
    decreases ops.len(),
{
    if ops.len() == 0 {
        Seq::empty()
    } else {
        let p = pushed_front_back(ops.drop_last(), cap);
        let q = run_front_back(ops.drop_last(), cap);
        match ops.last() {
            Op::Push(v) => if q.len() < cap {
                p.push(v)
            } else {
                p
            },
            Op::Pop => p,
        }
    }
}

/// The values returned by the accepted pops of a `run_front_back` run, in
/// order.
pub open spec fn popped_front_back<T>(ops: Seq<Op<T>>, cap: nat) -> Seq<T>
    decreases ops.len(),
{
    if ops.len() == 0 {
        Seq::empty()
    } else {
        let o = popped_front_back(ops.drop_last(), cap);
        let q = run_front_back(ops.drop_last(), cap);
        match ops.last() {
            Op::Push(_) => o,
            Op::Pop => if q.len() > 0 {
                o.push(q.last())
            } else {
                o
            },
        }
    }
}

/// Mirrored FIFO law for `push_front`/`pop_back`: over any sequence of such
/// operations on an initially empty buffer, the values already popped
/// followed by the stored values newest-first are exactly the values pushed
/// — so the pops return the pushed values in push order.
pub proof fn lemma_fifo_front_back<T>(ops: Seq<Op<T>>, cap: nat)
    ensures
        pushed_front_back(ops, cap) == popped_front_back(ops, cap) + run_front_back(
            ops,
            cap,
        ).reverse(),
        popped_front_back(ops, cap) == pushed_front_back(ops, cap).subrange(
            0,
            popped_front_back(ops, cap).len() as int,
        ),
    decreases ops.len(),
{
    if ops.len() == 0 {
        assert(pushed_front_back(ops, cap) =~= popped_front_back(ops, cap) + run_front_back(
            ops,
            cap,
        ).reverse());
    } else {
        lemma_fifo_front_back(ops.drop_last(), cap);
        let p = pushed_front_back(ops.drop_last(), cap);
        let o = popped_front_back(ops.drop_last(), cap);
        let q = run_front_back(ops.drop_last(), cap);
        match ops.last() {
            Op::Push(v) => {
                if q.len() < cap {
                    assert((seq![v] + q).reverse() =~= q.reverse().push(v));
                    assert(p.push(v) =~= o + q.reverse().push(v));
                }
            },
            Op::Pop => {
                if q.len() > 0 {
                    assert(q.reverse() =~= seq![q.last()] + q.drop_last().reverse());
                    assert(p =~= o.push(q.last()) + q.drop_last().reverse());
                }
            },
        }
    }
    assert(popped_front_back(ops, cap) =~= pushed_front_back(ops, cap).subrange(
        0,
        popped_front_back(ops, cap).len() as int,
    ));
}

/// One operation on either end of the buffer.
pub enum DequeOp<T> {
    PushBack(T),
    PushFront(T),
    PopBack,
    PopFront,
}

/// Contents after applying `ops` to an initially empty buffer of capacity
/// `cap`: exactly the view transitions that the four push and pop
/// operations ensure. A refused operation (push while full, pop while
/// empty) changes nothing.
pub open spec fn run_deque<T>(ops: Seq<DequeOp<T>>, cap: nat) -> Seq<T>
    decreases ops.len(),
{
    if ops.len() == 0 {
        Seq::empty()
    } else {
        let q = run_deque(ops.drop_last(), cap);
        match ops.last() {
            DequeOp::PushBack(v) => if q.len() < cap {
                q.push(v)
            } else {
                q
            },
            DequeOp::PushFront(v) => if q.len() < cap {
                seq![v] + q
            } else {
                q
            },
            DequeOp::PopBack => if q.len() > 0 {
                q.drop_last()
            } else {
                q
            },
            DequeOp::PopFront => if q.len() > 0 {
                q.drop_first()
            } else {
                q
            },
        }
    }
}

/// How many pushes of a `run_deque` run are accepted.
pub open spec fn accepted_pushes<T>(ops: Seq<DequeOp<T>>, cap: nat) -> nat
    decreases ops.len(),
{
    if ops.len() == 0 {
        0
    } else {
        let n = accepted_pushes(ops.drop_last(), cap);
        let q = run_deque(ops.drop_last(), cap);
        match ops.last() {
            DequeOp::PushBack(_) => if q.len() < cap {
                n + 1
            } else {
                n
            },
            DequeOp::PushFront(_) => if q.len() < cap {
                n + 1
            } else {
                n
            },
            DequeOp::PopBack => n,
            DequeOp::PopFront => n,
        }
    }
}

/// How many pops of a `run_deque` run are accepted.
pub open spec fn accepted_pops<T>(ops: Seq<DequeOp<T>>, cap: nat) -> nat
    decreases ops.len(),
{
    if ops.len() == 0 {
        0
    } else {
        let n = accepted_pops(ops.drop_last(), cap);
        let q = run_deque(ops.drop_last(), cap);
        match ops.last() {
            DequeOp::PushBack(_) => n,
            DequeOp::PushFront(_) => n,
            DequeOp::PopBack => if q.len() > 0 {
                n + 1
            } else {
                n
            },
            DequeOp::PopFront => if q.len() > 0 {
                n + 1
            } else {
                n
            },
        }
    }
}

/// Occupancy bookkeeping law: after any sequence of operations on an
/// initially empty buffer of capacity `cap`, the number of stored elements
/// is the number of accepted pushes minus the number of accepted pops, and
/// never exceeds `cap`. Together with the contracts of `is_full` and
/// `is_empty` (`is_full()` iff `len() == capacity()`, `is_empty()` iff
/// `len() == 0`), this pins the occupancy queries over whole histories.
pub proof fn lemma_len_is_accepted_pushes_minus_pops<T>(ops: Seq<DequeOp<T>>, cap: nat)
    ensures
        accepted_pops(ops, cap) <= accepted_pushes(ops, cap),
        run_deque(ops, cap).len() == accepted_pushes(ops, cap) - accepted_pops(ops, cap),
        run_deque(ops, cap).len() <= cap,
    decreases ops.len(),
{
    if ops.len() > 0 {
        lemma_len_is_accepted_pushes_minus_pops(ops.drop_last(), cap);
    }
}

/// Back-insertion then immediate back-removal is a net no-op: on any
/// contents `s` that a successful `push_back(x)` turned into `s.push(x)`,
/// `pop_back` returns `x` and restores `s`, so `len()` is unchanged.
pub proof fn lemma_push_back_then_pop_back<T>(s: Seq<T>, x: T)
    ensures
        s.push(x).last() == x,
        s.push(x).drop_last() == s,
        s.push(x).len() == s.len() + 1,
{
    assert(s.push(x).drop_last() =~= s);
}

/// Front-insertion then immediate front-removal is a net no-op: on any
/// contents `s` that a successful `push_front(x)` turned into `seq![x] + s`,
/// `pop_front` returns `x` and restores `s`, so `len()` is unchanged.
pub proof fn lemma_push_front_then_pop_front<T>(s: Seq<T>, x: T)
    ensures
        (seq![x] + s).first() == x,
        (seq![x] + s).drop_first() == s,
        (seq![x] + s).len() == s.len() + 1,
{
    assert((seq![x] + s).drop_first() =~= s);
}

} // verus!
