//! A fixed-capacity ring buffer and a two-tier history store built on it:
//! every sample lands in a primary buffer, and each sample the primary
//! buffer evicts is down-sampled (every nth kept) into a storage buffer.

use vstd::prelude::*;

verus! {

/// A ring buffer over a fixed backing array. `end` is the next write
/// position; once the buffer has wrapped (`full`), `start` trails one ahead
/// of `end` and every cell holds live data.
#[derive(Clone, Debug)]
pub struct SimpleRingbuf<V> {
    pub data: Vec<V>,
    pub start: usize,
    pub end: usize,
    pub size: usize,
    pub full: bool,
}

impl<T> SimpleRingbuf<T> {
    pub open spec fn wf(self) -> bool {
        &&& self.size >= 1
        &&& self.data@.len() == self.size
        &&& self.end < self.size
        &&& self.start < self.size
        &&& (!self.full ==> self.start == 0 && self.end >= 0)
        &&& (self.full ==> self.start == (self.end + 1) % (self.size as int))
    }

    /// The live samples, oldest first: before wrapping the prefix written so
    /// far, after wrapping the whole array starting at the oldest cell.
    pub open spec fn contents(self) -> Seq<T> {
        if self.full {
            self.data@.skip(self.end as int) + self.data@.take(self.end as int)
        } else {
            self.data@.take(self.end as int)
        }
    }
}

impl<T: Default> SimpleRingbuf<T> {
    /// An empty buffer holding `size` samples at most.
    pub fn new(size: usize) -> (r: SimpleRingbuf<T>)
        requires
            size >= 1,
        ensures
            r.wf(),
            r.size == size,
            r.contents() == Seq::<T>::empty(),
            r.contents().len() == 0,
    {
        let mut data: Vec<T> = Vec::new();
        let mut i: usize = 0;
        while i < size
            invariant
                i <= size,
                data@.len() == i,
            decreases size - i,
        {
            data.push(T::default());
            i = i + 1;
        }
        let r = SimpleRingbuf { data, start: 0, end: 0, size, full: false };
        proof {
            assert(r.contents() =~= Seq::<T>::empty());
        }
        r
    }

    /// Write one sample, evicting the oldest once the buffer is full.
    pub fn push(&mut self, value: T)
        requires
            old(self).wf(),
        ensures
            final(self).wf(),
            final(self).size == old(self).size,
            final(self).data@ == old(self).data@.update(old(self).end as int, value),
            final(self).end == (old(self).end + 1) % (old(self).size as int),
            final(self).full == (old(self).full || (old(self).end + 1) % (old(self).size as int)
                == old(self).start),
            final(self).contents() == if old(self).contents().len() < old(self).size {
                old(self).contents().push(value)
            } else {
                old(self).contents().skip(1).push(value)
            },
    {
        let ghost pre = *old(self);
        self.data[self.end] = value;
        self.end = (self.end + 1) % self.size;
        if self.end == self.start {
            self.start = (self.start + 1) % self.size;
            self.full = true;
        }
        proof {
            let size = pre.size as int;
            let end = pre.end as int;
            assert((end + 1) % size == if end + 1 == size {
                0int
            } else {
                end + 1
            }) by (nonlinear_arith)
                requires
                    0 <= end < size,
            ;
            assert((pre.start + 1) % size == if pre.start + 1 == size {
                0int
            } else {
                pre.start as int + 1
            }) by (nonlinear_arith)
                requires
                    0 <= pre.start < size,
            ;
            if !pre.full {
                if end + 1 < size {
                    assert(final(self).contents() =~= pre.contents().push(value));
                } else {
                    assert(final(self).contents() =~= pre.contents().push(value));
                }
            } else {
                assert(pre.contents().len() == size);
                if end + 1 < size {
                    assert(final(self).contents() =~= pre.contents().skip(1).push(value));
                } else {
                    assert(final(self).contents() =~= pre.contents().skip(1).push(value));
                }
            }
        }
    }
}

impl<T: Default + Copy> SimpleRingbuf<T> {
    /// Write one sample as `push` does, handing back the sample it evicted,
    /// if any.
    pub fn push_emit(&mut self, value: T) -> (evicted: Option<T>)
        requires
            old(self).wf(),
        ensures
            final(self).wf(),
            final(self).size == old(self).size,
            final(self).contents() == if old(self).contents().len() < old(self).size {
                old(self).contents().push(value)
            } else {
                old(self).contents().skip(1).push(value)
            },
            evicted == if old(self).full {
                Some(old(self).contents()[0])
            } else {
                None::<T>
            },
    {
        let to_return = if self.full {
            Some(self.data[self.end])
        } else {
            None
        };
        self.push(value);
        to_return
    }

    /// The live samples, oldest first, as a fresh vector.
    pub fn flatten_copy(&self) -> (r: Vec<T>)
        requires
            self.wf(),
        ensures
            r@ == self.contents(),
    {
        let len = if self.full {
            self.size
        } else {
            self.end
        };
        let first = if self.full {
            self.end
        } else {
            self.start
        };
        let mut out: Vec<T> = Vec::new();
        let mut i: usize = 0;
        while i < len
            invariant
                self.wf(),
                len == self.contents().len(),
                len <= self.size,
                first < self.size,
                first == if self.full {
                    self.end as int
                } else {
                    self.start as int
                },
                i <= len,
                out@.len() == i,
                forall|k: int| 0 <= k < i ==> #[trigger] out@[k] == self.contents()[k],
            decreases len - i,
        {
            let idx = if i < self.size - first {
                first + i
            } else {
                i - (self.size - first)
            };
            proof {
                assert(self.contents()[i as int] == self.data@[idx as int]);
            }
            out.push(self.data[idx]);
            i = i + 1;
        }
        proof {
            assert(out@ =~= self.contents());
        }
        out
    }
}

/// How evicted samples are thinned before they reach the storage tier.
#[derive(Clone, Debug)]
pub enum PersistenceMethod {
    KeepEvery(KeepEveryMethod),
}

/// Keep one sample out of every `nth`.
#[derive(Clone, Debug)]
pub struct KeepEveryMethod {
    pub nth: usize,
    pub count: usize,
}

impl KeepEveryMethod {
    pub open spec fn wf(self) -> bool {
        &&& self.nth >= 1
        &&& self.count < self.nth
    }

    pub fn new(nth: usize) -> (r: KeepEveryMethod)
        requires
            nth >= 1,
        ensures
            r.wf(),
            r.nth == nth,
            r.count == 0,
    {
        KeepEveryMethod { nth, count: 0 }
    }

    /// Advance the cycle; true on every `nth` call.
    pub fn persist_next(&mut self) -> (keep: bool)
        requires
            old(self).wf(),
        ensures
            final(self).wf(),
            final(self).nth == old(self).nth,
            final(self).count == (old(self).count + 1) % (old(self).nth as int),
            keep == (final(self).count == 0),
    {
        self.count = (self.count + 1) % self.nth;
        self.count == 0
    }
}

impl PersistenceMethod {
    pub open spec fn wf(self) -> bool {
        match self {
            PersistenceMethod::KeepEvery(m) => m.wf(),
        }
    }

    pub fn persist_next(&mut self) -> (keep: bool)
        requires
            old(self).wf(),
        ensures
            final(self).wf(),
            ({
                match (*old(self), *final(self)) {
                    (PersistenceMethod::KeepEvery(m0), PersistenceMethod::KeepEvery(m1)) => {
                        &&& m1.nth == m0.nth
                        &&& m1.count == (m0.count + 1) % (m0.nth as int)
                        &&& keep == (m1.count == 0)
                    },
                }
            }),
    {
        match self {
            PersistenceMethod::KeepEvery(method) => method.persist_next(),
        }
    }
}

/// Two-tier sample history: recent samples verbatim, older samples thinned.
#[derive(Clone, Debug)]
pub struct HistoryStore<T> {
    pub primary_ringbuf: SimpleRingbuf<T>,
    pub storage_ringbuf: SimpleRingbuf<T>,
    pub persistence_method: PersistenceMethod,
}

impl<T: Default + Copy> HistoryStore<T> {
    pub open spec fn wf(self) -> bool {
        &&& self.primary_ringbuf.wf()
        &&& self.storage_ringbuf.wf()
        &&& self.persistence_method.wf()
    }

    pub fn new(primary_size: usize, storage_size: usize, store_every_nth: usize) -> (r:
        HistoryStore<T>)
        requires
            primary_size >= 1,
            storage_size >= 1,
            store_every_nth >= 1,
        ensures
            r.wf(),
            r.primary_ringbuf.size == primary_size,
            r.primary_ringbuf.contents().len() == 0,
            r.storage_ringbuf.size == storage_size,
            r.storage_ringbuf.contents().len() == 0,
            r.persistence_method == PersistenceMethod::KeepEvery(
                KeepEveryMethod { nth: store_every_nth, count: 0 },
            ),
    {
        HistoryStore {
            primary_ringbuf: SimpleRingbuf::new(primary_size),
            storage_ringbuf: SimpleRingbuf::new(storage_size),
            persistence_method: PersistenceMethod::KeepEvery(KeepEveryMethod::new(store_every_nth)),
        }
    }

    /// Record one sample: it enters the primary buffer, and if that evicts
    /// an older sample, the persistence cycle decides whether the evicted
    /// sample is kept in the storage buffer.
    pub fn push(&mut self, value: T)
        requires
            old(self).wf(),
        ensures
            final(self).wf(),
            final(self).primary_ringbuf.size == old(self).primary_ringbuf.size,
            final(self).storage_ringbuf.size == old(self).storage_ringbuf.size,
            final(self).primary_ringbuf.contents() == if old(
                self,
            ).primary_ringbuf.contents().len() < old(self).primary_ringbuf.size {
                old(self).primary_ringbuf.contents().push(value)
            } else {
                old(self).primary_ringbuf.contents().skip(1).push(value)
            },
            ({
                let evicted = old(self).primary_ringbuf.full;
                let m0 = match old(self).persistence_method {
                    PersistenceMethod::KeepEvery(m) => m,
                };
                let m1 = match final(self).persistence_method {
                    PersistenceMethod::KeepEvery(m) => m,
                };
                if evicted {
                    &&& m1.nth == m0.nth
                    &&& m1.count == (m0.count + 1) % (m0.nth as int)
                    &&& final(self).storage_ringbuf.contents() == if m1.count == 0 {
                        if old(self).storage_ringbuf.contents().len() < old(
                            self,
                        ).storage_ringbuf.size {
                            old(self).storage_ringbuf.contents().push(
                                old(self).primary_ringbuf.contents()[0],
                            )
                        } else {
                            old(self).storage_ringbuf.contents().skip(1).push(
                                old(self).primary_ringbuf.contents()[0],
                            )
                        }
                    } else {
                        old(self).storage_ringbuf.contents()
                    }
                } else {
                    &&& final(self).storage_ringbuf == old(self).storage_ringbuf
                    &&& final(self).persistence_method == old(self).persistence_method
                }
            }),
    {
        match self.primary_ringbuf.push_emit(value) {
            Some(replaced) => {
                if self.persistence_method.persist_next() {
                    self.storage_ringbuf.push(replaced);
                }
            },
            None => {},
        }
    }
}

} // verus!
