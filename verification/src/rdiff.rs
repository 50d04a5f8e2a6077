use vstd::prelude::*;

verus! {

/// A rectangular table of counts, used for the longest-common-subsequence
/// dynamic program.
pub struct Grid {
    pub num_rows: usize,
    pub num_cols: usize,
    pub elems: Vec<Vec<usize>>,
}

impl Grid {
    /// Well-formed: exactly `num_rows` rows of exactly `num_cols` cells.
    pub open spec fn wf(self) -> bool {
        &&& self.elems@.len() == self.num_rows
        &&& forall|i: int|
            0 <= i < self.elems@.len() ==> (#[trigger] self.elems@[i])@.len() == self.num_cols
    }

    /// The cell at row `i`, column `j`.
    pub open spec fn at(self, i: int, j: int) -> usize {
        self.elems@[i]@[j]
    }

    /// A grid of zeroes.
    pub fn new(num_rows: usize, num_cols: usize) -> (g: Grid)
        ensures
            g.wf(),
            g.num_rows == num_rows,
            g.num_cols == num_cols,
            forall|i: int, j: int| 0 <= i < num_rows && 0 <= j < num_cols ==> g.at(i, j) == 0,
    {
        let mut elems: Vec<Vec<usize>> = Vec::new();
        let mut r: usize = 0;
        while r < num_rows
            invariant
                r <= num_rows,
                elems@.len() == r,
                forall|i: int| 0 <= i < r ==> (#[trigger] elems@[i])@.len() == num_cols,
                forall|i: int, j: int|
                    0 <= i < r && 0 <= j < num_cols ==> #[trigger] elems@[i]@[j] == 0,
            decreases num_rows - r,
        {
            let mut row: Vec<usize> = Vec::new();
            let mut c: usize = 0;
            while c < num_cols
                invariant
                    c <= num_cols,
                    row@.len() == c,
                    forall|j: int| 0 <= j < c ==> row@[j] == 0,
                decreases num_cols - c,
            {
                row.push(0);
                c += 1;
            }
            elems.push(row);
            r += 1;
        }
        Grid { num_rows, num_cols, elems }
    }

    /// The grid's dimensions, rows first.
    pub fn size(&self) -> (r: (usize, usize))
        ensures
            r.0 == self.num_rows,
            r.1 == self.num_cols,
    {
        (self.num_rows, self.num_cols)
    }

    /// The cell at (`row`, `col`), or nothing when out of bounds.
    pub fn get(&self, row: usize, col: usize) -> (r: Option<usize>)
        requires
            self.wf(),
        ensures
            r == (if row < self.num_rows && col < self.num_cols {
                Some(self.at(row as int, col as int))
            } else {
                None::<usize>
            }),
    {
        if row < self.num_rows && col < self.num_cols {
            Some(self.elems[row][col])
        } else {
            None
        }
    }

    /// Write `val` at (`row`, `col`); out of bounds is an error and changes
    /// nothing.
    pub fn set(&mut self, row: usize, col: usize, val: usize) -> (r: Result<(), ()>)
        requires
            old(self).wf(),
        ensures
            final(self).wf(),
            final(self).num_rows == old(self).num_rows,
            final(self).num_cols == old(self).num_cols,
            row < old(self).num_rows && col < old(self).num_cols ==> r is Ok,
            !(row < old(self).num_rows && col < old(self).num_cols) ==> r is Err && *final(self)
                == *old(self),
            forall|i: int, j: int|
                0 <= i < old(self).num_rows && 0 <= j < old(self).num_cols ==> final(self).at(i, j)
                    == (if i == row && j == col && r is Ok {
                    val
                } else {
                    old(self).at(i, j)
                }),
    {
        if row < self.num_rows && col < self.num_cols {
            self.elems[row][col] = val;
            Ok(())
        } else {
            Err(())
        }
    }
}

/// Length of the longest common subsequence of the first `i` lines of `a`
/// and the first `j` lines of `b`, by the classic recurrence.
pub open spec fn lcs_len(a: Seq<Seq<char>>, b: Seq<Seq<char>>, i: int, j: int) -> nat
    decreases i + j,
{
    if i <= 0 || j <= 0 {
        0
    } else if a[i - 1] == b[j - 1] {
        lcs_len(a, b, i - 1, j - 1) + 1
    } else {
        let up = lcs_len(a, b, i - 1, j);
        let left = lcs_len(a, b, i, j - 1);
        if up >= left {
            up
        } else {
            left
        }
    }
}

/// A common subsequence of prefixes is never longer than either prefix.
proof fn lemma_lcs_len_bound(a: Seq<Seq<char>>, b: Seq<Seq<char>>, i: int, j: int)
    requires
        0 <= i,
        0 <= j,
    ensures
        lcs_len(a, b, i, j) <= i,
        lcs_len(a, b, i, j) <= j,
    decreases i + j,
{
    if i > 0 && j > 0 {
        lemma_lcs_len_bound(a, b, i - 1, j - 1);
        lemma_lcs_len_bound(a, b, i - 1, j);
        lemma_lcs_len_bound(a, b, i, j - 1);
    }
}

/// Fill the full longest-common-subsequence table for the two line lists:
/// cell (i, j) holds the LCS length of the first i lines of `seq1` and the
/// first j lines of `seq2`.
pub fn lcs(seq1: &Vec<String>, seq2: &Vec<String>) -> (g: Grid)
    requires
        seq1@.len() < usize::MAX,
        seq2@.len() < usize::MAX,
    ensures
        g.wf(),
        g.num_rows == seq1@.len() + 1,
        g.num_cols == seq2@.len() + 1,
        forall|i: int, j: int|
            0 <= i <= seq1@.len() && 0 <= j <= seq2@.len() ==> g.at(i, j) == lcs_len(
                seq1@.map_values(|s: String| s@),
                seq2@.map_values(|s: String| s@),
                i,
                j,
            ),
{
    let ghost a = seq1@.map_values(|s: String| s@);
    let ghost b = seq2@.map_values(|s: String| s@);
    let seq1_len = seq1.len();
    let seq2_len = seq2.len();
    let mut grid = Grid::new(seq1_len + 1, seq2_len + 1);
    let mut i: usize = 0;
    while i < seq1_len
        invariant
            i <= seq1_len,
            seq1_len == seq1@.len(),
            seq2_len == seq2@.len(),
            a == seq1@.map_values(|s: String| s@),
            b == seq2@.map_values(|s: String| s@),
            grid.wf(),
            grid.num_rows == seq1_len + 1,
            grid.num_cols == seq2_len + 1,
            forall|r: int, c: int|
                0 <= r <= seq1_len && 0 <= c <= seq2_len && (r == 0 || c == 0 || r <= i)
                    ==> grid.at(r, c) == lcs_len(a, b, r, c),
        decreases seq1_len - i,
    {
        let mut j: usize = 0;
        while j < seq2_len
            invariant
                i < seq1_len,
                j <= seq2_len,
                seq1_len == seq1@.len(),
                seq2_len == seq2@.len(),
                a == seq1@.map_values(|s: String| s@),
                b == seq2@.map_values(|s: String| s@),
                grid.wf(),
                grid.num_rows == seq1_len + 1,
                grid.num_cols == seq2_len + 1,
                forall|r: int, c: int|
                    0 <= r <= seq1_len && 0 <= c <= seq2_len && (r == 0 || c == 0 || r <= i || (r
                        == i + 1 && c <= j)) ==> grid.at(r, c) == lcs_len(a, b, r, c),
            decreases seq2_len - j,
        {
            proof {
                assert(a[i as int] == seq1@[i as int]@);
                assert(b[j as int] == seq2@[j as int]@);
            }
            if seq1[i].eq(&seq2[j]) {
                let val = grid.get(i, j).unwrap();
                proof {
                    lemma_lcs_len_bound(a, b, i as int, j as int);
                }
                let _ = grid.set(i + 1, j + 1, val + 1);
            } else {
                let up = grid.get(i + 1, j).unwrap();
                let left = grid.get(i, j + 1).unwrap();
                let val = if up >= left {
                    up
                } else {
                    left
                };
                let _ = grid.set(i + 1, j + 1, val);
            }
            j += 1;
        }
        i += 1;
    }
    grid
}

/// One line of a diff listing: the tag says whether the line is common to
/// both files (' '), only in the second ('>'), or only in the first ('<').
pub open spec fn diff_spec(a: Seq<Seq<char>>, b: Seq<Seq<char>>, i: int, j: int) -> Seq<
    (char, Seq<char>),
>
    decreases i + j,
{
    if i < 0 || j < 0 {
        Seq::empty()
    } else if i > 0 && j > 0 && a[i - 1] == b[j - 1] {
        diff_spec(a, b, i - 1, j - 1).push((' ', a[i - 1]))
    } else if j > 0 && (i == 0 || lcs_len(a, b, i, j - 1) >= lcs_len(a, b, i - 1, j)) {
        diff_spec(a, b, i, j - 1).push(('>', b[j - 1]))
    } else if i > 0 && (j == 0 || lcs_len(a, b, i, j - 1) < lcs_len(a, b, i - 1, j)) {
        diff_spec(a, b, i - 1, j).push(('<', a[i - 1]))
    } else {
        Seq::empty()
    }
}

/// Walk a filled LCS table back from (`i`, `j`) and collect the diff lines
/// in output order; the caller prints each tag and line.
pub fn diff_lines(
    lcs_table: &Grid,
    lines1: &Vec<String>,
    lines2: &Vec<String>,
    i: usize,
    j: usize,
) -> (out: Vec<(char, String)>)
    requires
        lcs_table.wf(),
        lcs_table.num_rows == lines1@.len() + 1,
        lcs_table.num_cols == lines2@.len() + 1,
        i <= lines1@.len(),
        j <= lines2@.len(),
        forall|r: int, c: int|
            0 <= r < lcs_table.num_rows && 0 <= c < lcs_table.num_cols ==> lcs_table.at(r, c)
                == lcs_len(
                lines1@.map_values(|s: String| s@),
                lines2@.map_values(|s: String| s@),
                r,
                c,
            ),
    ensures
        out@.map_values(|p: (char, String)| (p.0, p.1@)) == diff_spec(
            lines1@.map_values(|s: String| s@),
            lines2@.map_values(|s: String| s@),
            i as int,
            j as int,
        ),
    decreases i + j,
{
    let ghost a = lines1@.map_values(|s: String| s@);
    let ghost b = lines2@.map_values(|s: String| s@);
    proof {
        if i > 0 {
            assert(a[i - 1] == lines1@[i - 1]@);
        }
        if j > 0 {
            assert(b[j - 1] == lines2@[j - 1]@);
        }
    }
    if i > 0 && j > 0 && lines1[i - 1].eq(&lines2[j - 1]) {
        let mut out = diff_lines(lcs_table, lines1, lines2, i - 1, j - 1);
        let ghost prev = out@.map_values(|p: (char, String)| (p.0, p.1@));
        out.push((' ', lines1[i - 1].clone()));
        proof {
            assert(out@.map_values(|p: (char, String)| (p.0, p.1@)) =~= prev.push(
                (' ', a[i - 1]),
            ));
        }
        out
    } else if j > 0 && (i == 0 || lcs_table.get(i, j - 1).unwrap() >= lcs_table.get(
        i - 1,
        j,
    ).unwrap()) {
        let mut out = diff_lines(lcs_table, lines1, lines2, i, j - 1);
        let ghost prev = out@.map_values(|p: (char, String)| (p.0, p.1@));
        out.push(('>', lines2[j - 1].clone()));
        proof {
            assert(out@.map_values(|p: (char, String)| (p.0, p.1@)) =~= prev.push(
                ('>', b[j - 1]),
            ));
        }
        out
    } else if i > 0 && (j == 0 || lcs_table.get(i, j - 1).unwrap() < lcs_table.get(
        i - 1,
        j,
    ).unwrap()) {
        let mut out = diff_lines(lcs_table, lines1, lines2, i - 1, j);
        let ghost prev = out@.map_values(|p: (char, String)| (p.0, p.1@));
        out.push(('<', lines1[i - 1].clone()));
        proof {
            assert(out@.map_values(|p: (char, String)| (p.0, p.1@)) =~= prev.push(
                ('<', a[i - 1]),
            ));
        }
        out
    } else {
        let out: Vec<(char, String)> = Vec::new();
        proof {
            assert(out@.map_values(|p: (char, String)| (p.0, p.1@)) =~= Seq::<
                (char, Seq<char>),
            >::empty());
        }
        out
    }
}

} // verus!
