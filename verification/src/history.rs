//! Telemetry side-channel: coordinate-to-timestamp maps recording where the
//! instruction pointer has been and which cells it read or wrote.
//!
//! Entries are written with a debounce window — an existing timestamp is
//! refreshed only when it is more than a fixed interval old — and pruned by
//! the consumer.  They have no effect on interpretation.

use vstd::prelude::*;

verus! {

/// The debounce window in milliseconds: an existing entry is refreshed only
/// when older than this.
pub const DEBOUNCE_MS: u64 = 500;

/// `a - b`, floored at zero.
pub open spec fn sat_sub(a: u64, b: u64) -> u64 {
    if a >= b {
        (a - b) as u64
    } else {
        0
    }
}

/// The map after recording a visit of `p` at time `now`: a new entry is
/// written, an existing one only refreshed when the debounce window has
/// passed.
pub open spec fn debounce(m: Map<(i64, i64), u64>, p: (i64, i64), now: u64) -> Map<
    (i64, i64),
    u64,
> {
    if !m.contains_key(p) || sat_sub(now, m[p]) > DEBOUNCE_MS {
        m.insert(p, now)
    } else {
        m
    }
}

/// A coordinate-to-timestamp map.
#[derive(Debug)]
pub struct CoordTimes {
    pub(crate) entries: Vec<((i64, i64), u64)>,
}

impl CoordTimes {
    /// Structural invariant: keys are unique.
    pub open(crate) spec fn inv(&self) -> bool {
        forall|i: int, j: int|
            0 <= i < j < self.entries@.len() ==> (#[trigger] self.entries@[i]).0
                != (#[trigger] self.entries@[j]).0
    }

    /// The mathematical content: a finite map from coordinates to the
    /// timestamp of the recorded visit.
    pub open(crate) spec fn view(&self) -> Map<(i64, i64), u64> {
        Map::new(
            |p: (i64, i64)|
                exists|i: int|
                    0 <= i < self.entries@.len() && (#[trigger] self.entries@[i]).0 == p,
            |p: (i64, i64)|
                {
                    let i = choose|i: int|
                        0 <= i < self.entries@.len() && (#[trigger] self.entries@[i]).0 == p;
                    self.entries@[i].1
                },
        )
    }

    pub(crate) proof fn lemma_entry(&self, i: int)
        requires
            self.inv(),
            0 <= i < self.entries@.len(),
        ensures
            self@.contains_key(self.entries@[i].0),
            self@[self.entries@[i].0] == self.entries@[i].1,
    {
        let p = self.entries@[i].0;
        let j = choose|j: int|
            0 <= j < self.entries@.len() && (#[trigger] self.entries@[j]).0 == p;
        if i < j {
            assert(self.entries@[i].0 != self.entries@[j].0);
        } else if j < i {
            assert(self.entries@[j].0 != self.entries@[i].0);
        }
    }

    /// An empty record.
    pub fn new() -> (r: Self)
        ensures
            r.inv(),
            r@ == Map::<(i64, i64), u64>::empty(),
    {
        let r = CoordTimes { entries: Vec::new() };
        proof {
            assert(r@ =~= Map::<(i64, i64), u64>::empty());
        }
        r
    }

    fn find(&self, p: (i64, i64)) -> (r: Option<usize>)
        requires
            self.inv(),
        ensures
            match r {
                Some(i) => i < self.entries@.len() && self.entries@[i as int].0 == p,
                None => forall|i: int|
                    0 <= i < self.entries@.len() ==> (#[trigger] self.entries@[i]).0 != p,
            },
    {
        let n = self.entries.len();
        let mut i: usize = 0;
        while i < n
            invariant
                n == self.entries@.len(),
                i <= n,
                forall|j: int| 0 <= j < i ==> (#[trigger] self.entries@[j]).0 != p,
            decreases n - i,
        {
            let (q, _) = self.entries[i];
            if q.0 == p.0 && q.1 == p.1 {
                return Some(i);
            }
            i = i + 1;
        }
        None
    }

    /// Records a visit of `p` at time `now`, honouring the debounce window.
    pub fn record(&mut self, p: (i64, i64), now: u64)
        requires
            old(self).inv(),
        ensures
            final(self).inv(),
            final(self)@ == debounce(old(self)@, p, now),
    {
        match self.find(p) {
            Some(i) => {
                proof {
                    self.lemma_entry(i as int);
                }
                let (_, prev) = self.entries[i];
                let elapsed: u64 = if now >= prev {
                    now - prev
                } else {
                    0
                };
                if elapsed > DEBOUNCE_MS {
                    self.entries[i] = (p, now);
                    proof {
                        let s0 = old(self).entries@;
                        let s1 = self.entries@;
                        assert forall|q: (i64, i64)|
                            #![auto]
                            final(self)@.contains_key(q) <==> debounce(
                            old(self)@,
                            p,
                            now,
                        ).contains_key(q) by {
                            if exists|j: int| 0 <= j < s1.len() && (#[trigger] s1[j]).0 == q {
                                let j = choose|j: int|
                                    0 <= j < s1.len() && (#[trigger] s1[j]).0 == q;
                                if j != i {
                                    assert(s0[j].0 == q);
                                }
                            }
                            if exists|j: int| 0 <= j < s0.len() && (#[trigger] s0[j]).0 == q {
                                let j = choose|j: int|
                                    0 <= j < s0.len() && (#[trigger] s0[j]).0 == q;
                                if j != i {
                                    assert(s1[j].0 == q);
                                } else {
                                    assert(s1[i as int].0 == q);
                                }
                            }
                        }
                        assert forall|q: (i64, i64)|
                            final(self)@.contains_key(q) implies #[trigger] final(self)@[q]
                            == debounce(old(self)@, p, now)[q] by {
                            let j = choose|j: int|
                                0 <= j < s1.len() && (#[trigger] s1[j]).0 == q;
                            self.lemma_entry(j);
                            if j == i {
                                assert(q == p);
                            } else {
                                assert(s0[j].0 == q);
                                old(self).lemma_entry(j);
                                assert(q != p);
                            }
                        }
                        assert(final(self)@ =~= debounce(old(self)@, p, now));
                    }
                } else {
                    proof {
                        assert(final(self)@ =~= debounce(old(self)@, p, now));
                    }
                }
            },
            None => {
                self.entries.push((p, now));
                proof {
                    let s0 = old(self).entries@;
                    let s1 = self.entries@;
                    assert(!old(self)@.contains_key(p));
                    assert forall|q: (i64, i64)|
                        #![auto]
                        final(self)@.contains_key(q) <==> debounce(
                        old(self)@,
                        p,
                        now,
                    ).contains_key(q) by {
                        if exists|j: int| 0 <= j < s1.len() && (#[trigger] s1[j]).0 == q {
                            let j = choose|j: int| 0 <= j < s1.len() && (#[trigger] s1[j]).0 == q;
                            if j < s0.len() {
                                assert(s0[j].0 == q);
                            } else {
                                assert(q == p);
                            }
                        }
                        if exists|j: int| 0 <= j < s0.len() && (#[trigger] s0[j]).0 == q {
                            let j = choose|j: int| 0 <= j < s0.len() && (#[trigger] s0[j]).0 == q;
                            assert(s1[j].0 == q);
                        }
                        if q == p {
                            assert(s1[s1.len() - 1].0 == q);
                        }
                    }
                    assert forall|q: (i64, i64)|
                        final(self)@.contains_key(q) implies #[trigger] final(self)@[q] == debounce(
                        old(self)@,
                        p,
                        now,
                    )[q] by {
                        let j = choose|j: int| 0 <= j < s1.len() && (#[trigger] s1[j]).0 == q;
                        self.lemma_entry(j);
                        if j < s0.len() {
                            assert(s0[j].0 == q);
                            old(self).lemma_entry(j);
                            assert(q != p);
                        } else {
                            assert(q == p);
                        }
                    }
                    assert(final(self)@ =~= debounce(old(self)@, p, now));
                }
            },
        }
    }

    /// Every recorded coordinate with its timestamp, each exactly once, in
    /// unspecified order.
    pub fn snapshot(&self) -> (r: Vec<((i64, i64), u64)>)
        requires
            self.inv(),
        ensures
            forall|i: int|
                0 <= i < r@.len() ==> self@.contains_key((#[trigger] r@[i]).0) && r@[i].1
                    == self@[r@[i].0],
            forall|p: (i64, i64)|
                self@.contains_key(p) ==> exists|i: int|
                    0 <= i < r@.len() && (#[trigger] r@[i]).0 == p,
            forall|i: int, j: int|
                0 <= i < j < r@.len() ==> (#[trigger] r@[i]).0 != (#[trigger] r@[j]).0,
    {
        let n = self.entries.len();
        let mut r: Vec<((i64, i64), u64)> = Vec::new();
        let mut i: usize = 0;
        while i < n
            invariant
                self.inv(),
                n == self.entries@.len(),
                i <= n,
                r@ == self.entries@.take(i as int),
            decreases n - i,
        {
            let e = self.entries[i];
            r.push(e);
            proof {
                assert(r@ =~= self.entries@.take(i + 1));
            }
            i = i + 1;
        }
        proof {
            assert(r@ == self.entries@);
            assert forall|i: int|
                0 <= i < r@.len() implies self@.contains_key((#[trigger] r@[i]).0) && r@[i].1
                == self@[r@[i].0] by {
                self.lemma_entry(i);
            }
        }
        r
    }

    /// Drops every entry whose age at time `now` is `max_age_ms` or more,
    /// keeping the rest.
    pub fn retain_recent(&mut self, now: u64, max_age_ms: u64)
        requires
            old(self).inv(),
        ensures
            final(self).inv(),
            final(self)@ == Map::<(i64, i64), u64>::new(
                |p: (i64, i64)|
                    old(self)@.contains_key(p) && sat_sub(now, old(self)@[p]) < max_age_ms,
                |p: (i64, i64)| old(self)@[p],
            ),
    {
        let n = self.entries.len();
        let mut kept: Vec<((i64, i64), u64)> = Vec::new();
        let mut i: usize = 0;
        while i < n
            invariant
                old(self).inv(),
                self == old(self),
                n == self.entries@.len(),
                i <= n,
                forall|j: int, k: int|
                    0 <= j < k < kept@.len() ==> (#[trigger] kept@[j]).0 != (#[trigger] kept@[k]).0,
                forall|j: int|
                    0 <= j < kept@.len() ==> exists|k: int|
                        0 <= k < i && (#[trigger] kept@[j]) == self.entries@[k],
                forall|k: int|
                    0 <= k < i ==> (sat_sub(now, (#[trigger] self.entries@[k]).1) < max_age_ms
                        <==> exists|j: int|
                        0 <= j < kept@.len() && (#[trigger] kept@[j]) == self.entries@[k]),
            decreases n - i,
        {
            let (p, t) = self.entries[i];
            let age: u64 = if now >= t {
                now - t
            } else {
                0
            };
            let ghost kept0 = kept@;
            if age < max_age_ms {
                proof {
                    assert forall|j: int|
                        0 <= j < kept@.len() implies (#[trigger] kept@[j]).0 != p by {
                        let k = choose|k: int|
                            0 <= k < i && (#[trigger] kept@[j]) == self.entries@[k];
                        assert(self.entries@[k].0 != self.entries@[i as int].0);
                    }
                }
                kept.push((p, t));
            }
            proof {
                assert forall|k: int|
                    0 <= k < i + 1 implies (sat_sub(now, (#[trigger] self.entries@[k]).1)
                    < max_age_ms <==> exists|j: int|
                    0 <= j < kept@.len() && (#[trigger] kept@[j]) == self.entries@[k]) by {
                    if k == i {
                        if age < max_age_ms {
                            assert(kept@[kept@.len() - 1] == self.entries@[k]);
                        } else {
                            assert forall|j: int|
                                0 <= j < kept@.len() implies (#[trigger] kept@[j])
                                != self.entries@[k] by {
                                let k2 = choose|k2: int|
                                    0 <= k2 < i && (#[trigger] kept@[j]) == self.entries@[k2];
                                assert(self.entries@[k2].0 != self.entries@[k].0);
                            }
                        }
                    } else {
                        if sat_sub(now, self.entries@[k].1) < max_age_ms {
                            let j = choose|j: int|
                                0 <= j < kept0.len() && (#[trigger] kept0[j]) == self.entries@[k];
                            assert(kept@[j] == self.entries@[k]);
                        } else {
                            assert forall|j: int|
                                0 <= j < kept@.len() implies (#[trigger] kept@[j])
                                != self.entries@[k] by {
                                if j < kept0.len() {
                                    assert(kept0[j] == kept@[j]);
                                } else {
                                    assert(kept@[j] == self.entries@[i as int]);
                                    assert(self.entries@[k].0 != self.entries@[i as int].0);
                                }
                            }
                        }
                    }
                }
            }
            i = i + 1;
        }
        let ghost pre = *old(self);
        self.entries = kept;
        proof {
            let target = Map::<(i64, i64), u64>::new(
                |p: (i64, i64)| pre@.contains_key(p) && sat_sub(now, pre@[p]) < max_age_ms,
                |p: (i64, i64)| pre@[p],
            );
            let s1 = self.entries@;
            assert forall|q: (i64, i64)| #![auto] final(self)@.contains_key(q) implies
                target.contains_key(q) && final(self)@[q] == target[q] by {
                let j = choose|j: int| 0 <= j < s1.len() && (#[trigger] s1[j]).0 == q;
                let k = choose|k: int| 0 <= k < n && (#[trigger] s1[j]) == pre.entries@[k];
                pre.lemma_entry(k);
                self.lemma_entry(j);
            }
            assert forall|q: (i64, i64)| #![auto] target.contains_key(q)
                implies final(self)@.contains_key(q) by {
                let k = choose|k: int|
                    0 <= k < pre.entries@.len() && (#[trigger] pre.entries@[k]).0 == q;
                pre.lemma_entry(k);
                assert(sat_sub(now, pre.entries@[k].1) < max_age_ms);
                let j = choose|j: int| 0 <= j < s1.len() && (#[trigger] s1[j]) == pre.entries@[k];
                assert(s1[j].0 == q);
            }
            assert(final(self)@ =~= target);
        }
    }
}

} // verus!
