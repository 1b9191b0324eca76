//! Transfer progress: one bar per top-level entry, plus a total bar when
//! more than one entry travels. Bytes are credited to the bars in order,
//! since the entries are streamed in order.
use vstd::prelude::*;

verus! {

/// Position and length of one bar.
#[derive(Debug, Clone, Copy, PartialEq, Eq, Structural)]
pub struct Bar {
    pub position: u64,
    pub length: u64,
}

/// Progress bars of a transfer.
pub struct CliProgressBars {
    bars: Vec<Bar>,
    total: Option<Bar>,
}

/// Bytes still missing on a bar.
pub open spec fn remaining(b: Bar) -> nat {
    if b.position < b.length {
        (b.length - b.position) as nat
    } else {
        0
    }
}

/// The bars after crediting `progress` bytes, from bar `i` on: each bar takes
/// what it still misses, in order, until the bytes run out.
pub open spec fn credited(bars: Seq<Bar>, progress: nat, i: int) -> Seq<Bar>
    decreases bars.len() - i,
{
    if i < 0 || i >= bars.len() || progress == 0 {
        bars
    } else if remaining(bars[i]) == 0 {
        credited(bars, progress, i + 1)
    } else {
        let take = if progress < remaining(bars[i]) {
            progress
        } else {
            remaining(bars[i])
        };
        credited(
            bars.update(i, Bar { position: (bars[i].position + take) as u64, length: bars[i].length }),
            (progress - take) as nat,
            i + 1,
        )
    }
}

pub open spec fn sum_positions(rows: Seq<(String, u64, u64)>, n: int) -> nat
    decreases n,
{
    if 0 < n <= rows.len() {
        (sum_positions(rows, n - 1) + rows[n - 1].1) as nat
    } else {
        0
    }
}

pub open spec fn sum_lengths(rows: Seq<(String, u64, u64)>, n: int) -> nat
    decreases n,
{
    if 0 < n <= rows.len() {
        (sum_lengths(rows, n - 1) + rows[n - 1].2) as nat
    } else {
        0
    }
}

proof fn lemma_sums_mono(rows: Seq<(String, u64, u64)>, i: int, n: int)
    requires
        0 <= i <= n <= rows.len(),
    ensures
        sum_positions(rows, i) <= sum_positions(rows, n),
        sum_lengths(rows, i) <= sum_lengths(rows, n),
    decreases n - i,
{
    if i < n {
        lemma_sums_mono(rows, i, n - 1);
    }
}

impl CliProgressBars {
    pub closed spec fn bars_view(&self) -> Seq<Bar> {
        self.bars@
    }

    pub closed spec fn total_view(&self) -> Option<Bar> {
        self.total
    }

    /// Bars from the initial progress of each entry (name, already
    /// transferred, total); a total bar only when there is more than one.
    pub fn new(callback_data: &[(String, u64, u64)]) -> (r: CliProgressBars)
        requires
            sum_positions(callback_data@, callback_data@.len() as int) <= u64::MAX,
            sum_lengths(callback_data@, callback_data@.len() as int) <= u64::MAX,
        ensures
            r.bars_view().len() == callback_data@.len(),
            forall|i: int|
                0 <= i < callback_data@.len() ==> #[trigger] r.bars_view()[i] == (Bar {
                    position: callback_data@[i].1,
                    length: callback_data@[i].2,
                }),
            callback_data@.len() > 1 ==> r.total_view() == Some(
                Bar {
                    position: sum_positions(callback_data@, callback_data@.len() as int) as u64,
                    length: sum_lengths(callback_data@, callback_data@.len() as int) as u64,
                },
            ),
            callback_data@.len() <= 1 ==> r.total_view() is None,
    {
        let mut bars: Vec<Bar> = Vec::new();
        let mut progress: u64 = 0;
        let mut size: u64 = 0;
        let mut i: usize = 0;
        while i < callback_data.len()
            invariant
                i <= callback_data@.len(),
                sum_positions(callback_data@, callback_data@.len() as int) <= u64::MAX,
                sum_lengths(callback_data@, callback_data@.len() as int) <= u64::MAX,
                progress == sum_positions(callback_data@, i as int),
                size == sum_lengths(callback_data@, i as int),
                bars.len() == i,
                forall|k: int|
                    0 <= k < i ==> #[trigger] bars@[k] == (Bar {
                        position: callback_data@[k].1,
                        length: callback_data@[k].2,
                    }),
            decreases callback_data@.len() - i,
        {
            proof {
                lemma_sums_mono(callback_data@, i + 1, callback_data@.len() as int);
            }
            let row = &callback_data[i];
            progress = progress + row.1;
            size = size + row.2;
            bars.push(Bar { position: row.1, length: row.2 });
            i += 1;
        }
        let total = if bars.len() > 1 {
            Some(Bar { position: progress, length: size })
        } else {
            None
        };
        CliProgressBars { bars, total }
    }

    /// Positions and lengths of the bars, one per entry.
    pub fn bars(&self) -> (r: Vec<Bar>)
        ensures
            r@ == self.bars_view(),
    {
        let mut out: Vec<Bar> = Vec::new();
        let mut i: usize = 0;
        while i < self.bars.len()
            invariant
                i <= self.bars@.len(),
                out@ == self.bars@.subrange(0, i as int),
            decreases self.bars@.len() - i,
        {
            out.push(self.bars[i]);
            i += 1;
            assert(out@ =~= self.bars@.subrange(0, i as int));
        }
        assert(out@ =~= self.bars@);
        out
    }

    /// Position and length of the total bar, if there is one.
    pub fn total(&self) -> (r: Option<Bar>)
        ensures
            r == self.total_view(),
    {
        self.total
    }

    /// Credits `progress` transferred bytes: the total bar takes them all;
    /// the entry bars take them in order, each up to its length.
    pub fn update(&mut self, progress: u64)
        ensures
            final(self).bars_view() == credited(old(self).bars_view(), progress as nat, 0),
            final(self).total_view() == match old(self).total_view() {
                Some(t) => Some(
                    Bar { position: t.position.wrapping_add(progress), length: t.length },
                ),
                None => None,
            },
    {
        if let Some(t) = self.total {
            self.total = Some(Bar { position: t.position.wrapping_add(progress), length: t.length });
        }
        let ghost total = self.total;
        let mut left = progress;
        let mut i: usize = 0;
        let ghost start = self.bars@;
        while i < self.bars.len() && left != 0
            invariant
                i <= self.bars@.len(),
                self.total == total,
                self.bars@.len() == start.len(),
                credited(self.bars@, left as nat, i as int) == credited(start, progress as nat, 0),
            decreases self.bars@.len() - i,
        {
            let b = self.bars[i];
            let missing: u64 = if b.position < b.length {
                b.length - b.position
            } else {
                0
            };
            if missing != 0 {
                let take = if left < missing {
                    left
                } else {
                    missing
                };
                self.bars.set(i, Bar { position: b.position + take, length: b.length });
                left = left - take;
            }
            i += 1;
        }
        assert(credited(self.bars@, left as nat, i as int) == self.bars@);
    }
}

} // verus!
