use super::elapsed::Elapsed;
use crate::app::InputResult;
use vstd::prelude::*;

verus! {

/// The inputs of one typing session, each with the time at which it came.
#[derive(Debug, Clone, PartialEq, Eq)]
pub struct InputResultRecord {
    pub inputs: Vec<(Elapsed, InputResult)>,
}

/// Number of entries of `s` that satisfy `f`.
pub open spec fn count_where<T>(s: Seq<T>, f: spec_fn(T) -> bool) -> nat
    decreases s.len(),
{
    if s.len() == 0 {
        0
    } else {
        count_where(s.drop_last(), f) + if f(s.last()) {
            1nat
        } else {
            0nat
        }
    }
}

pub open spec fn is_correct_entry(e: (Elapsed, InputResult)) -> bool {
    e.1 is Correct
}

pub open spec fn is_wrong_entry(e: (Elapsed, InputResult)) -> bool {
    e.1 is Wrong
}

/// The entry is a mistake on the character `c`.
pub open spec fn is_mistake_on(e: (Elapsed, InputResult), c: char) -> bool {
    e.1 == InputResult::Wrong(c)
}

/// The entry is correct and came at a time in `[start, end)`.
pub open spec fn is_correct_within(e: (Elapsed, InputResult), start: int, end: int) -> bool {
    &&& e.1 is Correct
    &&& start <= e.0@
    &&& e.0@ < end
}

/// Number of wrong inputs on the character `c` among the entries of `s`.
pub open spec fn mistake_count(s: Seq<(Elapsed, InputResult)>, c: char) -> nat {
    count_where(s, |e: (Elapsed, InputResult)| is_mistake_on(e, c))
}

/// `count_where` of a prefix one longer adds the new entry.
pub proof fn lemma_count_where_take<T>(s: Seq<T>, f: spec_fn(T) -> bool, i: int)
    requires
        0 <= i < s.len(),
    ensures
        count_where(s.take(i + 1), f) == count_where(s.take(i), f) + if f(s[i]) {
            1nat
        } else {
            0nat
        },
{
    assert(s.take(i + 1).drop_last() =~= s.take(i));
}

/// `count_where` never exceeds the length.
pub proof fn lemma_count_where_le_len<T>(s: Seq<T>, f: spec_fn(T) -> bool)
    ensures
        count_where(s, f) <= s.len(),
    decreases s.len(),
{
    if s.len() > 0 {
        lemma_count_where_le_len(s.drop_last(), f);
    }
}

/// Every input of a record is either correct or wrong: the two counts add up to the
/// number of inputs.
pub proof fn lemma_correct_plus_wrong(s: Seq<(Elapsed, InputResult)>)
    ensures
        count_where(s, |e: (Elapsed, InputResult)| is_correct_entry(e)) + count_where(
            s,
            |e: (Elapsed, InputResult)| is_wrong_entry(e),
        ) == s.len(),
    decreases s.len(),
{
    if s.len() > 0 {
        lemma_correct_plus_wrong(s.drop_last());
    }
}

impl InputResultRecord {
    /// Whether every time stamp of the record is canonical.
    pub open spec fn wf(self) -> bool {
        forall|i: int| 0 <= i < self.inputs@.len() ==> (#[trigger] self.inputs@[i]).0.wf()
    }

    /// Number of correct inputs.
    pub fn count_correct(&self) -> (n: usize)
        ensures
            n == count_where(self.inputs@, |e: (Elapsed, InputResult)| is_correct_entry(e)),
    {
        let ghost f = |e: (Elapsed, InputResult)| is_correct_entry(e);
        let mut n: usize = 0;
        let mut i: usize = 0;
        while i < self.inputs.len()
            invariant
                i <= self.inputs@.len(),
                n == count_where(self.inputs@.take(i as int), f),
                f == (|e: (Elapsed, InputResult)| is_correct_entry(e)),
            decreases self.inputs@.len() - i,
        {
            proof {
                lemma_count_where_take(self.inputs@, f, i as int);
                lemma_count_where_le_len(self.inputs@.take(i as int), f);
            }
            if let InputResult::Correct(_) = self.inputs[i].1 {
                n = n + 1;
            }
            i = i + 1;
        }
        assert(self.inputs@.take(i as int) =~= self.inputs@);
        n
    }

    /// Number of wrong inputs.
    pub fn count_wrong(&self) -> (n: usize)
        ensures
            n == count_where(self.inputs@, |e: (Elapsed, InputResult)| is_wrong_entry(e)),
    {
        let ghost f = |e: (Elapsed, InputResult)| is_wrong_entry(e);
        let mut n: usize = 0;
        let mut i: usize = 0;
        while i < self.inputs.len()
            invariant
                i <= self.inputs@.len(),
                n == count_where(self.inputs@.take(i as int), f),
                f == (|e: (Elapsed, InputResult)| is_wrong_entry(e)),
            decreases self.inputs@.len() - i,
        {
            proof {
                lemma_count_where_take(self.inputs@, f, i as int);
                lemma_count_where_le_len(self.inputs@.take(i as int), f);
            }
            if let InputResult::Wrong(_) = self.inputs[i].1 {
                n = n + 1;
            }
            i = i + 1;
        }
        assert(self.inputs@.take(i as int) =~= self.inputs@);
        n
    }

    /// Number of correct inputs whose time lies in `[start, end)`: the sample from which a
    /// words-per-minute figure is computed over a window of time.
    pub fn count_correct_between(&self, start: &Elapsed, end: &Elapsed) -> (n: usize)
        requires
            self.wf(),
            start.wf(),
            end.wf(),
        ensures
            n == count_where(
                self.inputs@,
                |e: (Elapsed, InputResult)| is_correct_within(e, start@, end@),
            ),
    {
        let ghost f = |e: (Elapsed, InputResult)| is_correct_within(e, start@, end@);
        let mut n: usize = 0;
        let mut i: usize = 0;
        while i < self.inputs.len()
            invariant
                self.wf(),
                start.wf(),
                end.wf(),
                i <= self.inputs@.len(),
                n == count_where(self.inputs@.take(i as int), f),
                f == (|e: (Elapsed, InputResult)| is_correct_within(e, start@, end@)),
            decreases self.inputs@.len() - i,
        {
            proof {
                lemma_count_where_take(self.inputs@, f, i as int);
                lemma_count_where_le_len(self.inputs@.take(i as int), f);
            }
            let el = &self.inputs[i].0;
            assert(el.wf());
            let in_window = !el.is_shorter_than(start) && el.is_shorter_than(end);
            if in_window {
                if let InputResult::Correct(_) = self.inputs[i].1 {
                    n = n + 1;
                }
            }
            i = i + 1;
        }
        assert(self.inputs@.take(i as int) =~= self.inputs@);
        n
    }

    /// The time of the last input, if there is one.
    pub fn last_elapsed(&self) -> (r: Option<Elapsed>)
        ensures
            self.inputs@.len() == 0 ==> r is None,
            self.inputs@.len() > 0 ==> r == Some(self.inputs@.last().0),
    {
        if self.inputs.len() == 0 {
            None
        } else {
            Some(self.inputs[self.inputs.len() - 1].0)
        }
    }

    /// For each character that was mistyped, how often it was: each such character
    /// appears once, with the number of wrong inputs on it.
    pub fn mistake_stats(&self) -> (stats: Vec<(char, usize)>)
        ensures
            forall|i: int, j: int|
                0 <= i < j < stats@.len() ==> stats@[i].0 != stats@[j].0,
            forall|i: int|
                0 <= i < stats@.len() ==> {
                    &&& (#[trigger] stats@[i]).1 > 0
                    &&& stats@[i].1 == mistake_count(self.inputs@, stats@[i].0)
                },
            forall|c: char|
                #[trigger] mistake_count(self.inputs@, c) > 0 ==> exists|i: int|
                    0 <= i < stats@.len() && (#[trigger] stats@[i]).0 == c,
    {
        let mut stats: Vec<(char, usize)> = Vec::new();
        let mut i: usize = 0;
        while i < self.inputs.len()
            invariant
                i <= self.inputs@.len(),
                forall|a: int, b: int|
                    0 <= a < b < stats@.len() ==> stats@[a].0 != stats@[b].0,
                forall|a: int|
                    0 <= a < stats@.len() ==> {
                        &&& (#[trigger] stats@[a]).1 > 0
                        &&& stats@[a].1 == mistake_count(self.inputs@.take(i as int), stats@[a].0)
                    },
                forall|c: char|
                    #[trigger] mistake_count(self.inputs@.take(i as int), c) > 0 ==> exists|a: int|
                        0 <= a < stats@.len() && (#[trigger] stats@[a]).0 == c,
            decreases self.inputs@.len() - i,
        {
            proof {
                assert forall|c: char| true implies #[trigger] mistake_count(self.inputs@.take(i + 1), c)
                    == mistake_count(self.inputs@.take(i as int), c) + if is_mistake_on(
                    self.inputs@[i as int],
                    c,
                ) {
                    1nat
                } else {
                    0nat
                } by {
                    lemma_count_where_take(
                        self.inputs@,
                        |e: (Elapsed, InputResult)| is_mistake_on(e, c),
                        i as int,
                    );
                    lemma_count_where_le_len(
                        self.inputs@.take(i as int),
                        |e: (Elapsed, InputResult)| is_mistake_on(e, c),
                    );
                }
            }
            if let InputResult::Wrong(c) = self.inputs[i].1 {
                let mut k: usize = 0;
                while k < stats.len() && stats[k].0 != c
                    invariant
                        k <= stats@.len(),
                        forall|a: int| 0 <= a < k ==> stats@[a].0 != c,
                    decreases stats@.len() - k,
                {
                    k = k + 1;
                }
                let found = k < stats.len();
                let ghost old_stats = stats@;
                if found {
                    let count = stats[k].1;
                    proof {
                        lemma_count_where_le_len(
                            self.inputs@.take(i as int),
                            |e: (Elapsed, InputResult)| is_mistake_on(e, c),
                        );
                    }
                    stats.set(k, (c, count + 1));
                } else {
                    stats.push((c, 1));
                }
                proof {
                    assert forall|c2: char| #[trigger]
                        mistake_count(self.inputs@.take(i + 1), c2) > 0 implies exists|a: int|
                        0 <= a < stats@.len() && (#[trigger] stats@[a]).0 == c2 by {
                        if c2 == c {
                            if found {
                                assert(stats@[k as int].0 == c2);
                            } else {
                                assert(stats@[old_stats.len() as int].0 == c2);
                            }
                        } else {
                            let a = choose|a: int| 0 <= a < old_stats.len() && (#[trigger] old_stats[a]).0 == c2;
                            assert(stats@[a].0 == c2);
                        }
                    }
                }
            } else {
                proof {
                    assert forall|c2: char| #[trigger]
                        mistake_count(self.inputs@.take(i + 1), c2) > 0 implies exists|a: int|
                        0 <= a < stats@.len() && (#[trigger] stats@[a]).0 == c2 by {
                        assert(mistake_count(self.inputs@.take(i as int), c2) > 0);
                    }
                }
            }
            i = i + 1;
        }
        assert(self.inputs@.take(i as int) =~= self.inputs@);
        stats
    }
}


impl From<Vec<(Elapsed, InputResult)>> for InputResultRecord {
    fn from(v: Vec<(Elapsed, InputResult)>) -> (r: InputResultRecord) {
        InputResultRecord { inputs: v }
    }
}

impl vstd::std_specs::convert::FromSpecImpl<Vec<(Elapsed, InputResult)>> for InputResultRecord {
    open spec fn obeys_from_spec() -> bool {
        true
    }

    open spec fn from_spec(v: Vec<(Elapsed, InputResult)>) -> InputResultRecord {
        InputResultRecord { inputs: v }
    }
}

impl From<InputResultRecord> for Vec<(Elapsed, InputResult)> {
    fn from(val: InputResultRecord) -> (v: Vec<(Elapsed, InputResult)>) {
        val.inputs
    }
}

impl vstd::std_specs::convert::FromSpecImpl<InputResultRecord> for Vec<(Elapsed, InputResult)> {
    open spec fn obeys_from_spec() -> bool {
        true
    }

    open spec fn from_spec(val: InputResultRecord) -> Vec<(Elapsed, InputResult)> {
        val.inputs
    }
}

} // verus!
