//! Accumulated runtime span measurements: per span name the total time, the
//! number of recordings, and the most recent duration (all in nanoseconds).
use vstd::prelude::*;

use crate::strutil::str_eq;

verus! {

/// Accumulated measurements of one span: total, count, last.
pub type SpanEntry = (u128, u32, u128);

/// The position of `name` among the recorded spans, or `-1`.
pub open spec fn span_index(s: Seq<(&'static str, SpanEntry)>, name: Seq<char>) -> int
    decreases s.len(),
{
    if s.len() == 0 {
        -1
    } else if s[0].0@ == name {
        0
    } else {
        let rest = span_index(s.drop_first(), name);
        if rest == -1 {
            -1
        } else {
            rest + 1
        }
    }
}

proof fn lemma_span_index_found(s: Seq<(&'static str, SpanEntry)>, name: Seq<char>, i: int)
    requires
        0 <= i < s.len(),
        s[i].0@ == name,
        forall|t: int| 0 <= t < i ==> #[trigger] s[t].0@ != name,
    ensures
        span_index(s, name) == i,
    decreases i,
{
    if i > 0 {
        assert(s[0].0@ != name);
        assert(s.drop_first()[i - 1] == s[i]);
        assert forall|t: int| 0 <= t < i - 1 implies #[trigger] s.drop_first()[t].0@ != name by {
            assert(s.drop_first()[t] == s[t + 1]);
        };
        lemma_span_index_found(s.drop_first(), name, i - 1);
    }
}

proof fn lemma_span_index_missing(s: Seq<(&'static str, SpanEntry)>, name: Seq<char>)
    requires
        forall|t: int| 0 <= t < s.len() ==> #[trigger] s[t].0@ != name,
    ensures
        span_index(s, name) == -1,
    decreases s.len(),
{
    if s.len() > 0 {
        assert forall|t: int|
            0 <= t < s.drop_first().len() implies #[trigger] s.drop_first()[t].0@ != name by {
            assert(s.drop_first()[t] == s[t + 1]);
        };
        lemma_span_index_missing(s.drop_first(), name);
    }
}

/// Per-name accumulated span measurements, one entry per distinct name.
pub struct RuntimeStorage {
    pub spans: Vec<(&'static str, SpanEntry)>,
}

impl RuntimeStorage {
    /// No two entries share a name.
    pub open spec fn wf(self) -> bool {
        forall|t1: int, t2: int|
            0 <= t1 < t2 < self.spans@.len() ==> #[trigger] self.spans@[t1].0@ != #[trigger] self
                .spans@[t2].0@
    }

    pub fn new() -> (r: Self)
        ensures
            r.spans@.len() == 0,
            r.wf(),
    {
        RuntimeStorage { spans: Vec::new() }
    }

    /// Records one measurement: an existing entry accumulates the total,
    /// counts one more recording and remembers `elapsed` as the last value;
    /// a new name gains a fresh entry.
    pub fn push(&mut self, name: &'static str, elapsed: u128)
        requires
            old(self).wf(),
            ({
                let i = span_index(old(self).spans@, name@);
                i >= 0 ==> old(self).spans@[i].1.0 + elapsed <= u128::MAX && old(
                    self,
                ).spans@[i].1.1 < u32::MAX
            }),
        ensures
            final(self).wf(),
            ({
                let i = span_index(old(self).spans@, name@);
                if i >= 0 {
                    final(self).spans@ == old(self).spans@.update(
                        i,
                        (
                            old(self).spans@[i].0,
                            (
                                (old(self).spans@[i].1.0 + elapsed) as u128,
                                (old(self).spans@[i].1.1 + 1) as u32,
                                elapsed,
                            ),
                        ),
                    )
                } else {
                    final(self).spans@ == old(self).spans@.push((name, (elapsed, 1u32, elapsed)))
                }
            }),
    {
        let mut t: usize = 0;
        while t < self.spans.len()
            invariant
                *self == *old(self),
                old(self).wf(),
                t <= self.spans@.len(),
                forall|t2: int| 0 <= t2 < t ==> #[trigger] self.spans@[t2].0@ != name@,
                ({
                    let i = span_index(old(self).spans@, name@);
                    i >= 0 ==> old(self).spans@[i].1.0 + elapsed <= u128::MAX && old(
                        self,
                    ).spans@[i].1.1 < u32::MAX
                }),
            decreases self.spans@.len() - t,
        {
            if str_eq(self.spans[t].0, name) {
                proof {
                    lemma_span_index_found(self.spans@, name@, t as int);
                }
                let existing = self.spans[t];
                let updated: SpanEntry = (existing.1.0 + elapsed, existing.1.1 + 1, elapsed);
                self.spans.set(t, (existing.0, updated));
                proof {
                    assert forall|t1: int, t2: int|
                        0 <= t1 < t2 < self.spans@.len() implies #[trigger] self.spans@[t1].0@
                        != #[trigger] self.spans@[t2].0@ by {
                        assert(old(self).spans@[t1].0@ != old(self).spans@[t2].0@);
                    };
                }
                return ;
            }
            t = t + 1;
        }
        proof {
            lemma_span_index_missing(self.spans@, name@);
        }
        let ghost before = self.spans@;
        self.spans.push((name, (elapsed, 1, elapsed)));
        proof {
            assert forall|t1: int, t2: int|
                0 <= t1 < t2 < self.spans@.len() implies #[trigger] self.spans@[t1].0@
                != #[trigger] self.spans@[t2].0@ by {
                if t2 < before.len() {
                    assert(before[t1].0@ != before[t2].0@);
                } else {
                    assert(self.spans@[t2].0@ == name@);
                    assert(before[t1].0@ != name@);
                }
            };
        }
    }

    pub fn get_spans(&self) -> (r: &Vec<(&'static str, SpanEntry)>)
        ensures
            r == &self.spans,
    {
        &self.spans
    }

    pub fn clear(&mut self)
        ensures
            final(self).spans@.len() == 0,
            final(self).wf(),
    {
        self.spans.clear();
    }
}

} // verus!
