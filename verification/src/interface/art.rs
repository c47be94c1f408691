//! Text pictures of boards: the cells of each Rank, the top Rank first.
use vstd::prelude::*;
use super::parse::digit;

verus! {

/// The cells `cells[lo..hi]`, each followed by a space.
pub open spec fn spaced(cells: Seq<char>, lo: int, hi: int) -> Seq<char>
    decreases hi - lo,
{
    if hi <= lo {
        Seq::empty()
    } else {
        spaced(cells, lo, hi - 1) + seq![cells[hi - 1], ' ']
    }
}

/// The line of the Rank `y` of a board `files` wide in a picture with Rank
/// numbers: its cells, then its number between spaces; the next line starts
/// with a space.
pub open spec fn numbered_line(cells: Seq<char>, files: int, y: int) -> Seq<char> {
    spaced(cells, y * files, y * files + files) + seq![' ', digit(y + 1), ' ', '\n', ' ']
}

/// The line of the Rank `y` of a board `files` wide in a plain picture: its
/// cells.
pub open spec fn plain_line(cells: Seq<char>, files: int, y: int) -> Seq<char> {
    spaced(cells, y * files, y * files + files) + seq!['\n']
}

/// The lines of the Ranks from `top - 1` down to `y`, numbered or plain.
pub open spec fn rank_lines(cells: Seq<char>, files: int, top: int, y: int, numbered: bool) -> Seq<char>
    decreases top - y,
{
    if y >= top {
        Seq::empty()
    } else {
        rank_lines(cells, files, top, y + 1, numbered) + if numbered {
            numbered_line(cells, files, y)
        } else {
            plain_line(cells, files, y)
        }
    }
}

/// A run of spaced cells has two characters for each cell.
pub proof fn lemma_spaced_len(cells: Seq<char>, lo: int, hi: int)
    requires
        lo <= hi,
    ensures
        spaced(cells, lo, hi).len() == 2 * (hi - lo),
    decreases hi - lo,
{
    if lo < hi {
        lemma_spaced_len(cells, lo, hi - 1);
    }
}

/// The cell `cells[lo + k]` stands at the place `2 * k` of a run of spaced
/// cells.
pub proof fn lemma_spaced_at(cells: Seq<char>, lo: int, hi: int, k: int)
    requires
        0 <= k < hi - lo,
    ensures
        spaced(cells, lo, hi)[2 * k] == cells[lo + k],
    decreases hi - lo,
{
    lemma_spaced_len(cells, lo, hi - 1);
    if k < hi - 1 - lo {
        lemma_spaced_at(cells, lo, hi - 1, k);
    }
}

/// The numbered lines of the Ranks from `top - 1` down to `y` have
/// `2 * files + 5` characters each.
pub proof fn lemma_numbered_lines_len(cells: Seq<char>, files: int, top: int, y: int)
    requires
        0 <= files,
        y <= top,
    ensures
        rank_lines(cells, files, top, y, true).len() == (top - y) * (2 * files + 5),
    decreases top - y,
{
    if y < top {
        lemma_numbered_lines_len(cells, files, top, y + 1);
        lemma_spaced_len(cells, y * files, y * files + files);
        assert((top - (y + 1)) * (2 * files + 5) + (2 * files + 5) == (top - y) * (2 * files + 5))
            by (nonlinear_arith);
    } else {
        assert((top - y) * (2 * files + 5) == 0) by (nonlinear_arith)
            requires
                y == top,
        ;
    }
}

/// In the numbered lines of the Ranks from `top - 1` down to `y`, the cell of
/// File `x` of Rank `r` stands at the place `2 * x` of the line of `r`, the
/// lines of the higher Ranks coming first.
pub proof fn lemma_numbered_lines_at(cells: Seq<char>, files: int, top: int, y: int, r: int, x: int)
    requires
        y <= r < top,
        0 <= x < files,
    ensures
        rank_lines(cells, files, top, y, true)[(top - 1 - r) * (2 * files + 5) + 2 * x] == cells[r * files
            + x],
    decreases top - y,
{
    let w = 2 * files + 5;
    lemma_numbered_lines_len(cells, files, top, y + 1);
    lemma_spaced_len(cells, y * files, y * files + files);
    if r == y {
        lemma_spaced_at(cells, y * files, y * files + files, x);
    } else {
        lemma_numbered_lines_at(cells, files, top, y + 1, r, x);
        assert((top - 1 - r) * w + 2 * x < (top - (y + 1)) * w) by (nonlinear_arith)
            requires
                y + 1 <= r,
                0 <= x < files,
                w == 2 * files + 5,
        ;
        assert(0 <= (top - 1 - r) * w + 2 * x) by (nonlinear_arith)
            requires
                r < top,
                0 <= x,
                w == 2 * files + 5,
                0 <= files,
        ;
    }
}

/// The label before the side to move in the picture of a Position.
pub open spec fn side_label() -> Seq<char> {
    seq!['S', 'i', 'd', 'e', ' ', 'T', 'o', ' ', 'M', 'o', 'v', 'e', ':', ' ']
}

/// Appends the characters of `s`.
pub fn push_chars(out: &mut Vec<char>, s: &[char])
    ensures
        final(out)@ == old(out)@ + s@,
{
    let mut i: usize = 0;
    while i < s.len()
        invariant
            i <= s@.len(),
            out@ == old(out)@ + s@.subrange(0, i as int),
        decreases s.len() - i,
    {
        out.push(s[i]);
        i = i + 1;
        proof {
            assert(s@.subrange(0, i as int) =~= s@.subrange(0, i - 1) + seq![s@[i - 1]]);
        }
    }
    proof {
        assert(s@.subrange(0, i as int) =~= s@);
    }
}

/// Appends the label before the side to move.
pub fn push_side_label(out: &mut Vec<char>)
    ensures
        final(out)@ == old(out)@ + side_label(),
{
    push_chars(out, &['S', 'i', 'd', 'e', ' ', 'T', 'o', ' ', 'M', 'o', 'v', 'e', ':', ' ']);
}

/// Appends the lines of every Rank of a board `files` wide and `ranks`
/// high whose cells are `cells`, by index `rank * files + file`: numbered
/// lines, or plain ones.
pub fn push_rank_lines(out: &mut Vec<char>, cells: &[char], files: usize, ranks: usize, numbered: bool)
    requires
        ranks <= 9,
        cells@.len() == files * ranks,
    ensures
        final(out)@ == old(out)@ + rank_lines(cells@, files as int, ranks as int, 0, numbered),
{
    let n = cells.len();
    let mut y: usize = ranks;
    while y > 0
        invariant
            y <= ranks <= 9,
            n == cells@.len(),
            cells@.len() == files * ranks,
            out@ == old(out)@ + rank_lines(cells@, files as int, ranks as int, y as int, numbered),
        decreases y,
    {
        y = y - 1;
        let ghost before = out@;
        assert((y + 1) * files <= files * ranks) by (nonlinear_arith)
            requires
                y + 1 <= ranks,
        ;
        assert((y + 1) * files == y * files + files) by (nonlinear_arith);
        let start: usize = y * files;
        let mut x: usize = 0;
        while x < files
            invariant
                x <= files,
                n == cells@.len(),
                start + files <= n,
                out@ == before + spaced(cells@, start as int, start + x),
            decreases files - x,
        {
            out.push(cells[start + x]);
            out.push(' ');
            x = x + 1;
            proof {
                assert(out@ =~= before + spaced(cells@, start as int, start + x));
            }
        }
        if numbered {
            out.push(' ');
            out.push((('1' as u8) + (y as u8)) as char);
            out.push(' ');
            out.push('\n');
            out.push(' ');
        } else {
            out.push('\n');
        }
        proof {
            assert(start + files == y * files + files);
            if numbered {
                assert(out@ =~= before + numbered_line(cells@, files as int, y as int));
            } else {
                assert(out@ =~= before + plain_line(cells@, files as int, y as int));
            }
            assert(out@ =~= old(out)@ + rank_lines(cells@, files as int, ranks as int, y as int, numbered));
        }
    }
}

} // verus!
