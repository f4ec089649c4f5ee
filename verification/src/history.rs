//! The bounded sample history behind every sparkline and chart.

use vstd::prelude::*;

verus! {

/// How many samples a history keeps.
pub const HISTORY_LEN: usize = 200;

/// Ring buffer for sparkline/graph history. Stores the last
/// `HISTORY_LEN` samples, oldest first.
#[derive(Debug, Clone)]
pub struct History<T> {
    pub data: Vec<T>,
    /// How many samples are kept; `HISTORY_LEN` for every history made by `new`.
    pub capacity: usize,
}

/// One sample appended to the samples `s` of a history keeping `cap` of
/// them: when `s` is full, its oldest sample goes.
pub open spec fn history_push<T>(s: Seq<T>, cap: nat, v: T) -> Seq<T> {
    if s.len() >= cap {
        s.drop_first().push(v)
    } else {
        s.push(v)
    }
}

/// The samples `vs` appended one after another.
pub open spec fn history_push_all<T>(s: Seq<T>, cap: nat, vs: Seq<T>) -> Seq<T>
    decreases vs.len(),
{
    if vs.len() == 0 {
        s
    } else {
        history_push(history_push_all(s, cap, vs.drop_last()), cap, vs.last())
    }
}

/// A history is a bounded ring buffer: after any samples are pushed into an
/// empty history that keeps `cap > 0` of them, it holds exactly the last
/// `cap` of them (all of them when there are fewer), oldest first.
pub proof fn lemma_history_keeps_latest<T>(cap: nat, vs: Seq<T>)
    requires
        cap > 0,
    ensures
        history_push_all(Seq::<T>::empty(), cap, vs) == vs.skip(
            if vs.len() > cap {
                vs.len() - cap
            } else {
                0
            },
        ),
    decreases vs.len(),
{
    if vs.len() > 0 {
        let init = vs.drop_last();
        lemma_history_keeps_latest(cap, init);
        let p = history_push_all(Seq::<T>::empty(), cap, init);
        if init.len() >= cap {
            assert(p.drop_first().push(vs.last()) =~= vs.skip(vs.len() - cap));
        } else {
            assert(p =~= init);
            assert(p.push(vs.last()) =~= vs.skip(0));
        }
    } else {
        assert(vs.skip(0) =~= vs);
    }
}

impl<T> View for History<T> {
    type V = Seq<T>;

    /// The samples, oldest first.
    open spec fn view(&self) -> Seq<T> {
        self.data@
    }
}

impl<T: Copy + Default> History<T> {
    /// The number of samples the history keeps.
    pub open spec fn capacity(&self) -> nat {
        self.capacity as nat
    }

    /// A history made by `new` keeps `HISTORY_LEN` samples.
    pub open spec fn wf(&self) -> bool {
        self.capacity == HISTORY_LEN
    }

    /// An empty history.
    pub fn new() -> (h: Self)
        ensures
            h.wf(),
            h.capacity() == HISTORY_LEN,
            h@ == Seq::<T>::empty(),
    {
        History { data: Vec::with_capacity(HISTORY_LEN), capacity: HISTORY_LEN }
    }

    /// Append a sample; when the history is full, the oldest one is dropped.
    pub fn push(&mut self, value: T)
        requires
            old(self).wf(),
        ensures
            final(self).wf(),
            final(self).capacity() == old(self).capacity(),
            final(self)@ == history_push(old(self)@, old(self).capacity(), value),
    {
        if self.data.len() >= self.capacity {
            self.data.remove(0);
        }
        self.data.push(value);
    }

    /// The latest sample, or `T::default()` (0.0 for a float history) when
    /// there is none.
    pub fn last(&self) -> (r: T)
        ensures
            self@.len() > 0 ==> r == self@.last(),
            self@.len() == 0 ==> call_ensures(T::default, (), r),
    {
        match self.data.last() {
            Some(v) => *v,
            None => T::default(),
        }
    }
}

} // verus!
