//! Load statistics gathered for split decisions: samples of requested key
//! ranges and how often a candidate key falls left of, right of, or inside
//! a requested range.  The heuristics that consume them are out of the
//! storage core; the arithmetic that feeds them is here.

use vstd::prelude::*;

use crate::codec::{lex_lt, KeyOrd};
use crate::kv::KeyRange;

verus! {

/// How many of the hottest regions a flush reports.
pub const TOP_N: usize = 10;

/// One request's key range and size, as recorded for load statistics.
#[derive(Debug, PartialEq, Eq)]
pub struct RequestInfo {
    pub start_key: Vec<u8>,
    pub end_key: Vec<u8>,
    pub bytes: usize,
    pub keys: usize,
}

impl Default for RequestInfo {
    /// An empty request.
    fn default() -> (r: RequestInfo)
        ensures
            r.start_key@.len() == 0,
            r.end_key@.len() == 0,
            r.bytes == 0,
            r.keys == 0,
    {
        RequestInfo { start_key: Vec::new(), end_key: Vec::new(), bytes: 0, keys: 0 }
    }
}

/// A candidate split key with counters of how the sampled ranges fall
/// around it.
#[derive(Debug, PartialEq, Eq)]
pub struct Sample {
    pub key: Vec<u8>,
    pub left: i32,
    pub contained: i32,
    pub right: i32,
}

impl Sample {
    /// A fresh candidate with zeroed counters.
    pub fn new(key: &[u8]) -> (r: Sample)
        ensures
            r.key@ == key@,
            r.left == 0,
            r.contained == 0,
            r.right == 0,
    {
        Sample { key: vstd::slice::slice_to_vec(key), left: 0, contained: 0, right: 0 }
    }
}

/// The running prefix sums of a list of loads: entry `i` is the sum of the
/// first `i + 1` loads.
pub open spec fn prefix_sum_spec(values: Seq<usize>, i: int) -> int
    decreases i + 1,
{
    if i < 0 {
        0
    } else {
        prefix_sum_spec(values, i - 1) + values[i]
    }
}

/// Computes the prefix sums of a list of loads.
pub fn prefix_sum(values: &Vec<usize>) -> (r: Vec<usize>)
    requires
        prefix_sum_spec(values@, values@.len() - 1) <= usize::MAX,
    ensures
        r@.len() == values@.len(),
        forall|i: int| 0 <= i < r@.len() ==> #[trigger] r@[i] == prefix_sum_spec(values@, i),
{
    let mut pre_sum: Vec<usize> = Vec::new();
    let mut sum: usize = 0;
    let mut i: usize = 0;
    let n = values.len();
    while i < n
        invariant
            0 <= i <= n,
            n == values@.len(),
            prefix_sum_spec(values@, n - 1) <= usize::MAX,
            sum == prefix_sum_spec(values@, i - 1),
            pre_sum@.len() == i,
            forall|j: int| 0 <= j < i ==> #[trigger] pre_sum@[j] == prefix_sum_spec(values@, j),
        decreases n - i,
    {
        proof {
            lemma_prefix_sum_mono(values@, i as int, n - 1);
        }
        sum = sum + values[i];
        pre_sum.push(sum);
        i = i + 1;
    }
    pre_sum
}

/// Prefix sums never shrink as the prefix grows.
pub proof fn lemma_prefix_sum_mono(values: Seq<usize>, i: int, j: int)
    requires
        i <= j < values.len(),
    ensures
        prefix_sum_spec(values, i) <= prefix_sum_spec(values, j),
    decreases j - i,
{
    if i < j {
        lemma_prefix_sum_mono(values, i, j - 1);
    }
}

/// Where the sample key stands relative to one requested range: before it,
/// past its start, or strictly inside it.  An empty start means "from the
/// beginning", an empty end "to the end".
pub open spec fn sample_position(key: Seq<u8>, start: Seq<u8>, end: Seq<u8>) -> SamplePos {
    let after_start = start.len() == 0 || lex_lt(start, key);
    let before_end = end.len() == 0 || lex_lt(key, end);
    if after_start && before_end {
        SamplePos::Contained
    } else if !after_start {
        SamplePos::Right
    } else {
        SamplePos::Left
    }
}

/// The side of a sampled range a candidate key falls on.
#[derive(Clone, Copy, PartialEq, Eq, Structural, Debug)]
pub enum SamplePos {
    Left,
    Contained,
    Right,
}

/// The recorder of sampled ranges for one region; it feeds every range to
/// each candidate's counters.
#[derive(Debug)]
pub struct Recorder {
    pub detect_num: u64,
    pub key_ranges: Vec<Vec<KeyRange>>,
    pub times: u64,
}

impl Recorder {
    /// A recorder that is ready after `detect_num` rounds.
    pub fn new(detect_num: u64) -> (r: Recorder)
        ensures
            r.detect_num == detect_num,
            r.times == 0,
            r.key_ranges@.len() == 0,
    {
        Recorder { detect_num, key_ranges: Vec::new(), times: 0 }
    }

    /// Records one round of sampled ranges.
    pub fn record(&mut self, key_ranges: Vec<KeyRange>)
        requires
            old(self).times < u64::MAX,
        ensures
            final(self).times == old(self).times + 1,
            final(self).key_ranges@.len() == old(self).key_ranges@.len() + 1,
            final(self).detect_num == old(self).detect_num,
    {
        self.times = self.times + 1;
        self.key_ranges.push(key_ranges);
    }

    /// Whether enough rounds were recorded.
    pub fn is_ready(&self) -> (r: bool)
        ensures
            r == (self.times >= self.detect_num),
    {
        self.times >= self.detect_num
    }

    /// Feeds one requested range to every candidate: the candidate strictly
    /// inside the range counts as contained, one at or before the start as
    /// right of it, one at or past the end as left of it.
    pub fn sample(samples: &mut Vec<Sample>, key_range: &KeyRange)
        ensures
            final(samples)@.len() == old(samples)@.len(),
            forall|i: int|
                0 <= i < old(samples)@.len() ==> {
                    let pos = sample_position(
                        (#[trigger] old(samples)@[i]).key@,
                        key_range.start_key@,
                        key_range.end_key@,
                    );
                    &&& final(samples)@[i].key@ == old(samples)@[i].key@
                    &&& final(samples)@[i].contained == (if pos == SamplePos::Contained
                        && old(samples)@[i].contained < i32::MAX {
                        old(samples)@[i].contained + 1i32
                    } else {
                        old(samples)@[i].contained as int
                    })
                    &&& final(samples)@[i].right == (if pos == SamplePos::Right && old(
                        samples,
                    )@[i].right < i32::MAX {
                        old(samples)@[i].right + 1i32
                    } else {
                        old(samples)@[i].right as int
                    })
                    &&& final(samples)@[i].left == (if pos == SamplePos::Left && old(
                        samples,
                    )@[i].left < i32::MAX {
                        old(samples)@[i].left + 1i32
                    } else {
                        old(samples)@[i].left as int
                    })
                },
    {
        let mut i: usize = 0;
        let n = samples.len();
        while i < n
            invariant
                0 <= i <= n,
                n == samples@.len(),
                samples@.len() == old(samples)@.len(),
                forall|j: int| i <= j < n ==> samples@[j] == old(samples)@[j],
                forall|j: int|
                    0 <= j < i ==> {
                        let pos = sample_position(
                            (#[trigger] old(samples)@[j]).key@,
                            key_range.start_key@,
                            key_range.end_key@,
                        );
                        &&& samples@[j].key@ == old(samples)@[j].key@
                        &&& samples@[j].contained == (if pos == SamplePos::Contained && old(
                            samples,
                        )@[j].contained < i32::MAX {
                            old(samples)@[j].contained + 1i32
                        } else {
                            old(samples)@[j].contained as int
                        })
                        &&& samples@[j].right == (if pos == SamplePos::Right && old(
                            samples,
                        )@[j].right < i32::MAX {
                            old(samples)@[j].right + 1i32
                        } else {
                            old(samples)@[j].right as int
                        })
                        &&& samples@[j].left == (if pos == SamplePos::Left && old(
                            samples,
                        )@[j].left < i32::MAX {
                            old(samples)@[j].left + 1i32
                        } else {
                            old(samples)@[j].left as int
                        })
                    },
            decreases n - i,
        {
            let after_start = if key_range.start_key.len() == 0 {
                true
            } else {
                crate::codec::lex_cmp(&key_range.start_key, &samples[i].key) == KeyOrd::Less
            };
            let before_end = if key_range.end_key.len() == 0 {
                true
            } else {
                crate::codec::lex_cmp(&samples[i].key, &key_range.end_key) == KeyOrd::Less
            };
            proof {
                if key_range.start_key@.len() > 0 {
                } else {
                    assert(after_start);
                }
            }
            let s = samples.remove(i);
            let Sample { key, left, contained, right } = s;
            let updated = if after_start && before_end {
                Sample {
                    key,
                    left,
                    contained: if contained < i32::MAX {
                        contained + 1
                    } else {
                        contained
                    },
                    right,
                }
            } else if !after_start {
                Sample {
                    key,
                    left,
                    contained,
                    right: if right < i32::MAX {
                        right + 1
                    } else {
                        right
                    },
                }
            } else {
                Sample {
                    key,
                    left: if left < i32::MAX {
                        left + 1
                    } else {
                        left
                    },
                    contained,
                    right,
                }
            };
            samples.insert(i, updated);
            i = i + 1;
        }
    }
}

} // verus!
