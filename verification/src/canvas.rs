//! A mutable fixed-size character grid with an overwrite-policy cell
//! write, and a serializer that joins rows and trims trailing blanks.

use vstd::prelude::*;

verus! {

/// The blank character filling a fresh canvas.
pub open spec fn blank() -> char {
    ' '
}

/// A fully blank grid of the given dimensions.
pub open spec fn blank_grid(width: int, height: int) -> Seq<Seq<char>> {
    Seq::new(height as nat, |i: int| Seq::new(width as nat, |j: int| blank()))
}

/// One governed cell write: out-of-range writes are dropped; a write
/// without `overwrite` only lands on a blank cell.
pub open spec fn cell_set(g: Seq<Seq<char>>, x: int, y: int, ch: char, overwrite: bool) -> Seq<
    Seq<char>,
> {
    if 0 <= y < g.len() && 0 <= x < g[y].len() && (overwrite || g[y][x] == blank()) {
        g.update(y, g[y].update(x, ch))
    } else {
        g
    }
}

/// Length of a row once trailing blanks are stripped; leading and
/// internal blanks do not shorten it.
pub open spec fn trim_len(row: Seq<char>) -> int
    decreases row.len(),
{
    if row.len() == 0 {
        0
    } else if row.last() == blank() {
        trim_len(row.drop_last())
    } else {
        row.len() as int
    }
}

/// A row with its trailing blanks stripped.
pub open spec fn trim_row(row: Seq<char>) -> Seq<char> {
    row.take(trim_len(row))
}

/// Serialization of the rows from index `i` on: trimmed rows joined by
/// line breaks, with no break after the last row.
pub open spec fn ser_from(g: Seq<Seq<char>>, i: int) -> Seq<char>
    decreases g.len() - i,
{
    if i < 0 || i >= g.len() {
        Seq::empty()
    } else if i + 1 == g.len() {
        trim_row(g[i])
    } else {
        trim_row(g[i]) + seq!['\n'] + ser_from(g, i + 1)
    }
}

/// Serialization of a whole grid.
pub open spec fn serialize(g: Seq<Seq<char>>) -> Seq<char> {
    ser_from(g, 0)
}

/// Trimming a row strips trailing blanks only: what remains is a
/// prefix of the row (so leading and internal blanks survive in
/// place), everything past it is blank, and a nonempty trimmed row
/// never ends in a blank.
pub proof fn lemma_trim_row_prefix(row: Seq<char>)
    ensures
        0 <= trim_len(row) <= row.len(),
        forall|j: int| 0 <= j < trim_len(row) ==> trim_row(row)[j] == row[j],
        forall|j: int| trim_len(row) <= j < row.len() ==> row[j] == blank(),
        trim_len(row) > 0 ==> row[trim_len(row) - 1] != blank(),
    decreases row.len(),
{
    if row.len() > 0 && row.last() == blank() {
        lemma_trim_row_prefix(row.drop_last());
        assert(row[row.len() - 1] == blank());
        assert forall|j: int| trim_len(row) <= j < row.len() - 1 implies row[j] == blank() by {
            assert(row[j] == row.drop_last()[j]);
        }
    }
}

/// The character grid: `height` rows of `width` cells each.
pub struct Canvas {
    pub width: usize,
    pub height: usize,
    pub cells: Vec<Vec<char>>,
}

impl View for Canvas {
    type V = Seq<Seq<char>>;

    open spec fn view(&self) -> Seq<Seq<char>> {
        self.cells.deep_view()
    }
}

impl Canvas {
    /// Every row really has `width` cells and there are `height` rows.
    pub open spec fn wf(&self) -> bool {
        &&& self@.len() == self.height
        &&& forall|i: int| 0 <= i < self@.len() ==> (#[trigger] self@[i]).len() == self.width
    }

    /// A fresh, fully blank canvas of the given dimensions.
    pub fn new(width: usize, height: usize) -> (c: Canvas)
        ensures
            c.wf(),
            c.width == width,
            c.height == height,
            c@ == blank_grid(width as int, height as int),
    {
        let mut cells: Vec<Vec<char>> = Vec::new();
        let mut i: usize = 0;
        while i < height
            invariant
                i <= height,
                cells.deep_view().len() == i,
                forall|r: int|
                    0 <= r < i ==> #[trigger] cells.deep_view()[r] == Seq::new(
                        width as nat,
                        |j: int| blank(),
                    ),
            decreases height - i,
        {
            let mut row: Vec<char> = Vec::new();
            let mut j: usize = 0;
            while j < width
                invariant
                    j <= width,
                    row@.len() == j,
                    forall|k: int| 0 <= k < j ==> row@[k] == blank(),
                decreases width - j,
            {
                row.push(' ');
                j += 1;
            }
            proof {
                assert(row.deep_view() =~= Seq::new(width as nat, |j: int| blank()));
            }
            let ghost pre = cells.deep_view();
            cells.push(row);
            proof {
                assert(cells.deep_view() =~~= pre.push(Seq::new(width as nat, |j: int| blank())));
            }
            i += 1;
        }
        let c = Canvas { width, height, cells };
        proof {
            assert(c@ =~= blank_grid(width as int, height as int));
        }
        c
    }

    /// The governed write: drops out-of-range targets silently; without
    /// `overwrite` it leaves a non-blank cell untouched.
    pub fn set(&mut self, x: i64, y: i64, ch: char, overwrite: bool)
        requires
            old(self).wf(),
        ensures
            final(self).wf(),
            final(self).width == old(self).width,
            final(self).height == old(self).height,
            final(self)@ == cell_set(old(self)@, x as int, y as int, ch, overwrite),
    {
        if x < 0 || y < 0 {
            return ;
        }
        if x as u64 >= self.width as u64 || y as u64 >= self.height as u64 {
            return ;
        }
        let ux = x as usize;
        let uy = y as usize;
        proof {
            assert(self.cells.deep_view().len() == self.cells@.len());
            assert(self.cells.deep_view()[uy as int] == self.cells@[uy as int].deep_view());
            assert(self.cells@[uy as int].deep_view().len() == self.cells@[uy as int]@.len());
        }
        if !overwrite && self.cells[uy][ux] != ' ' {
            return ;
        }
        self.cells[uy][ux] = ch;
        proof {
            assert(self@ =~~= cell_set(old(self)@, x as int, y as int, ch, overwrite));
        }
    }

    /// Serialize: rows joined with line breaks in row order, each row
    /// stripped of trailing blanks only; blank rows are preserved.
    pub fn to_string(&self) -> (s: String)
        requires
            self.wf(),
        ensures
            s@ == serialize(self@),
    {
        let mut out: Vec<char> = Vec::new();
        let mut i: usize = 0;
        proof {
            assert(out@ + ser_from(self@, 0) =~= ser_from(self@, 0));
        }
        while i < self.height
            invariant
                self.wf(),
                i <= self.height,
                serialize(self@) == out@ + ser_from(self@, i as int),
            decreases self.height - i,
        {
            let row = &self.cells[i];
            let ghost rowv = self@[i as int];
            let mut end: usize = row.len();
            proof {
                assert(rowv.take(end as int) =~= rowv);
            }
            while end > 0 && row[end - 1] == ' '
                invariant
                    end <= rowv.len(),
                    rowv == row.deep_view(),
                    trim_len(rowv) == trim_len(rowv.take(end as int)),
                decreases end,
            {
                proof {
                    let pre = rowv.take(end as int);
                    assert(pre.last() == blank());
                    assert(pre.drop_last() =~= rowv.take(end as int - 1));
                }
                end -= 1;
            }
            proof {
                let pre = rowv.take(end as int);
                if end == 0 {
                    assert(trim_len(pre) == 0);
                } else {
                    assert(pre.last() == rowv[end as int - 1]);
                    assert(pre.last() != blank());
                    assert(trim_len(pre) == end as int);
                }
                assert(trim_len(rowv) == end as int);
            }
            let mut k: usize = 0;
            let ghost out_entry = out@;
            while k < end
                invariant
                    k <= end,
                    end <= rowv.len(),
                    rowv == row.deep_view(),
                    out@ == out_entry + rowv.take(k as int),
                decreases end - k,
            {
                proof {
                    assert(rowv.take(k as int + 1) =~= rowv.take(k as int).push(rowv[k as int]));
                    assert(out_entry + rowv.take(k as int + 1) =~= (out_entry + rowv.take(
                        k as int,
                    )).push(rowv[k as int]));
                }
                out.push(row[k]);
                k += 1;
            }
            assert(out@ == out_entry + trim_row(rowv));
            if i + 1 < self.height {
                out.push('\n');
                proof {
                    assert(ser_from(self@, i as int) == trim_row(rowv) + seq!['\n'] + ser_from(
                        self@,
                        i as int + 1,
                    ));
                    assert(out_entry + ser_from(self@, i as int) =~= out@ + ser_from(
                        self@,
                        i as int + 1,
                    ));
                }
            } else {
                proof {
                    assert(ser_from(self@, i as int) == trim_row(rowv));
                    assert(out_entry + ser_from(self@, i as int) =~= out@ + ser_from(
                        self@,
                        i as int + 1,
                    ));
                }
            }
            i += 1;
        }
        proof {
            assert(ser_from(self@, i as int) =~= Seq::<char>::empty());
            assert(out@ + Seq::<char>::empty() =~= out@);
        }
        chars_to_string(out)
    }
}

/// Relies on `String`'s `FromIterator<char>`: collecting an iterator of
/// characters yields the string of exactly those characters in order.
#[verifier::external_body]
fn chars_to_string(v: Vec<char>) -> (s: String)
    ensures
        s@ == v@,
{
    v.into_iter().collect()
}

} // verus!
