//! Per-channel, per-bin state in one flat array.
//!
//! The cell of bin `b` of channel `c` is `c * bin_count + b`. The table is
//! sized once; resetting it overwrites the cells in place.

use vstd::prelude::*;

verus! {

/// The flat index of bin `bin` of channel `channel`.
pub open spec fn flat_index(channel: int, bin: int, bin_count: int) -> int {
    channel * bin_count + bin
}

/// The flat index stays inside the table and tells each pair of channel and
/// bin from every other.
pub proof fn lemma_flat_index(
    channel: int,
    bin: int,
    other_channel: int,
    other_bin: int,
    channel_count: int,
    bin_count: int,
)
    requires
        0 <= channel < channel_count,
        0 <= bin < bin_count,
        0 <= other_channel < channel_count,
        0 <= other_bin < bin_count,
    ensures
        0 <= flat_index(channel, bin, bin_count) < channel_count * bin_count,
        flat_index(channel, bin, bin_count) == flat_index(other_channel, other_bin, bin_count)
            <==> channel == other_channel && bin == other_bin,
{
    assert(0 <= channel * bin_count && channel * bin_count + bin_count <= channel_count
        * bin_count) by (nonlinear_arith)
        requires
            0 <= channel,
            channel + 1 <= channel_count,
            0 < bin_count,
    ;
    if channel < other_channel {
        assert(channel * bin_count + bin_count <= other_channel * bin_count) by (nonlinear_arith)
            requires
                channel + 1 <= other_channel,
                0 < bin_count,
        ;
    } else if other_channel < channel {
        assert(other_channel * bin_count + bin_count <= channel * bin_count) by (nonlinear_arith)
            requires
                other_channel + 1 <= channel,
                0 < bin_count,
        ;
    }
}

/// One item for each bin of each channel.
pub struct PhaseGrid<T> {
    cells: Vec<T>,
    channel_count: usize,
    bin_count: usize,
}

impl<T> View for PhaseGrid<T> {
    type V = Seq<Seq<T>>;

    closed spec fn view(&self) -> Seq<Seq<T>> {
        Seq::new(
            self.channel_count as nat,
            |c: int|
                Seq::new(
                    self.bin_count as nat,
                    |b: int| self.cells@[flat_index(c, b, self.bin_count as int)],
                ),
        )
    }
}

/// Whether `grid` has `channel_count` rows of `bin_count` items each.
pub open spec fn has_shape<T>(grid: Seq<Seq<T>>, channel_count: int, bin_count: int) -> bool {
    &&& grid.len() == channel_count
    &&& forall|c: int| 0 <= c < channel_count ==> (#[trigger] grid[c]).len() == bin_count
}

/// The grid of the given shape that holds `fill` everywhere.
pub open spec fn uniform<T>(channel_count: int, bin_count: int, fill: T) -> Seq<Seq<T>> {
    Seq::new(channel_count as nat, |c: int| Seq::new(bin_count as nat, |b: int| fill))
}

impl<T: Copy> PhaseGrid<T> {
    /// The flat array holds exactly one cell per channel and bin.
    pub closed spec fn wf(&self) -> bool {
        self.cells@.len() == self.channel_count * self.bin_count
    }

    /// Number of channels, as mathematics.
    pub closed spec fn channels(&self) -> int {
        self.channel_count as int
    }

    /// Number of bins per channel, as mathematics.
    pub closed spec fn bins(&self) -> int {
        self.bin_count as int
    }

    /// The view of a well-formed grid has the grid's shape.
    pub proof fn lemma_view_has_shape(&self)
        ensures
            has_shape(self@, self.channels(), self.bins()),
    {
    }

    /// A grid of `channel_count` by `bin_count` items, each of them `fill`.
    pub fn new(channel_count: usize, bin_count: usize, fill: T) -> (grid: PhaseGrid<T>)
        requires
            channel_count * bin_count <= usize::MAX,
        ensures
            grid.wf(),
            grid.channels() == channel_count,
            grid.bins() == bin_count,
            grid@ == uniform(channel_count as int, bin_count as int, fill),
    {
        let total: usize = channel_count * bin_count;
        let mut cells: Vec<T> = Vec::with_capacity(total);
        let mut n: usize = 0;
        while n < total
            invariant
                n <= total,
                cells@.len() == n,
                forall|i: int| 0 <= i < n ==> cells@[i] == fill,
            decreases total - n,
        {
            cells.push(fill);
            n = n + 1;
        }
        let grid = PhaseGrid { cells, channel_count, bin_count };
        proof {
            grid.lemma_all_cells(fill);
        }
        grid
    }

    /// A grid whose cells all hold `fill` shows `fill` everywhere.
    proof fn lemma_all_cells(&self, fill: T)
        requires
            self.wf(),
            forall|i: int| 0 <= i < self.cells@.len() ==> self.cells@[i] == fill,
        ensures
            self@ == uniform(self.channel_count as int, self.bin_count as int, fill),
    {
        let wanted = uniform(self.channel_count as int, self.bin_count as int, fill);
        assert forall|c: int| 0 <= c < self.channel_count implies #[trigger] self@[c]
            =~= wanted[c] by {
            assert forall|b: int| 0 <= b < self.bin_count implies self@[c][b] == fill by {
                lemma_flat_index(c, b, c, b, self.channel_count as int, self.bin_count as int);
            }
        }
        assert(self@ =~= wanted);
    }

    /// Number of channels.
    pub fn channel_count(&self) -> (count: usize)
        ensures
            count == self.channels(),
    {
        self.channel_count
    }

    /// Number of bins per channel.
    pub fn bin_count(&self) -> (count: usize)
        ensures
            count == self.bins(),
    {
        self.bin_count
    }

    /// The item of bin `bin` of channel `channel`.
    pub fn get(&self, channel: usize, bin: usize) -> (item: T)
        requires
            self.wf(),
            channel < self.channels(),
            bin < self.bins(),
        ensures
            item == self@[channel as int][bin as int],
    {
        proof {
            lemma_flat_index(
                channel as int,
                bin as int,
                channel as int,
                bin as int,
                self.channel_count as int,
                self.bin_count as int,
            );
            assert(self.cells@.len() == self.cells.len());
        }
        self.cells[channel * self.bin_count + bin]
    }

    /// Puts `item` in bin `bin` of channel `channel`; every other cell stays.
    pub fn set(&mut self, channel: usize, bin: usize, item: T)
        requires
            old(self).wf(),
            channel < old(self).channels(),
            bin < old(self).bins(),
        ensures
            final(self).wf(),
            final(self).channels() == old(self).channels(),
            final(self).bins() == old(self).bins(),
            final(self)@ == old(self)@.update(
                channel as int,
                old(self)@[channel as int].update(bin as int, item),
            ),
    {
        proof {
            lemma_flat_index(
                channel as int,
                bin as int,
                channel as int,
                bin as int,
                self.channel_count as int,
                self.bin_count as int,
            );
            assert(self.cells@.len() == self.cells.len());
        }
        self.cells.set(channel * self.bin_count + bin, item);
        proof {
            let wanted = old(self)@.update(
                channel as int,
                old(self)@[channel as int].update(bin as int, item),
            );
            assert(wanted.len() == self.channel_count);
            assert forall|c: int| 0 <= c < self.channel_count implies #[trigger] self@[c]
                =~= wanted[c] by {
                assert forall|b: int| 0 <= b < self.bin_count implies self@[c][b]
                    == wanted[c][b] by {
                    lemma_flat_index(
                        c,
                        b,
                        channel as int,
                        bin as int,
                        self.channel_count as int,
                        self.bin_count as int,
                    );
                }
            }
            assert(self@ =~= wanted);
        }
    }

    /// Makes every cell `fill`, in place.
    pub fn fill(&mut self, fill: T)
        requires
            old(self).wf(),
        ensures
            final(self).wf(),
            final(self).channels() == old(self).channels(),
            final(self).bins() == old(self).bins(),
            final(self)@ == uniform(old(self).channels(), old(self).bins(), fill),
    {
        let total: usize = self.cells.len();
        let mut n: usize = 0;
        while n < total
            invariant
                n <= total,
                self.cells@.len() == total,
                self.channel_count == old(self).channel_count,
                self.bin_count == old(self).bin_count,
                forall|i: int| 0 <= i < n ==> self.cells@[i] == fill,
            decreases total - n,
        {
            self.cells.set(n, fill);
            n = n + 1;
        }
        proof {
            self.lemma_all_cells(fill);
        }
    }
}

} // verus!
