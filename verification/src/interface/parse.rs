//! Parsing of the text forms of positions: splitting into fields, the piece
//! placement field of a FEN string, and small numbers.
use vstd::prelude::*;

verus! {

/// The characters of a string.
pub fn chars_of(s: &str) -> (r: Vec<char>)
    ensures
        r@ == s@,
{
    broadcast use vstd::string::axiom_spec_iter;

    let mut v: Vec<char> = Vec::new();
    for c in it: s.chars()
        invariant
            v@ == it.seq().take(it.index()),
            it.seq() == s@,
    {
        v.push(c);
    }
    v
}

/// The index of the first occurrence of `c` in `s`, or `-1`.
pub open spec fn first_index(s: Seq<char>, c: char) -> int
    decreases s.len(),
{
    if s.len() == 0 {
        -1
    } else if s[0] == c {
        0
    } else {
        let k = first_index(s.drop_first(), c);
        if k < 0 {
            -1
        } else {
            k + 1
        }
    }
}

/// What the first index is.
pub proof fn lemma_first_index(s: Seq<char>, c: char)
    ensures
        -1 <= first_index(s, c) < s.len(),
        first_index(s, c) >= 0 ==> s[first_index(s, c)] == c,
        forall|j: int|
            0 <= j < s.len() && (first_index(s, c) < 0 || j < first_index(s, c)) ==> #[trigger] s[j]
                != c,
    decreases s.len(),
{
    if s.len() > 0 && s[0] != c {
        lemma_first_index(s.drop_first(), c);
        assert forall|j: int|
            0 <= j < s.len() && (first_index(s, c) < 0 || j < first_index(s, c)) implies #[trigger] s[j]
                != c by {
            if j > 0 {
                assert(s[j] == s.drop_first()[j - 1]);
            }
        }
    }
}

/// A first occurrence is the first index.
pub proof fn lemma_first_index_at(s: Seq<char>, c: char, k: int)
    requires
        0 <= k <= s.len(),
        k < s.len() ==> s[k] == c,
        forall|j: int| 0 <= j < k ==> #[trigger] s[j] != c,
    ensures
        first_index(s, c) == (if k < s.len() {
            k
        } else {
            -1
        }),
    decreases s.len(),
{
    if s.len() > 0 && k > 0 {
        assert forall|j: int| 0 <= j < k - 1 implies #[trigger] s.drop_first()[j] != c by {
            assert(s.drop_first()[j] == s[j + 1]);
        }
        lemma_first_index_at(s.drop_first(), c, k - 1);
    }
}

/// The pieces of `s` between the occurrences of `sep`, as `str::split`
/// gives them: one more piece than there are separators.
pub open spec fn split(s: Seq<char>, sep: char) -> Seq<Seq<char>>
    decreases s.len(),
{
    let k = first_index(s, sep);
    if k < 0 || k >= s.len() {
        seq![s]
    } else {
        seq![s.take(k)] + split(s.skip(k + 1), sep)
    }
}

/// Splits `s[lo..hi]` at each occurrence of `sep`, returning the bounds of
/// the pieces.
pub fn split_ranges(s: &[char], lo: usize, hi: usize, sep: char) -> (r: Vec<(usize, usize)>)
    requires
        lo <= hi <= s@.len(),
    ensures
        r@.len() == split(s@.subrange(lo as int, hi as int), sep).len(),
        forall|k: int|
            0 <= k < r@.len() ==> lo <= (#[trigger] r@[k]).0 <= r@[k].1 <= hi && s@.subrange(
                r@[k].0 as int,
                r@[k].1 as int,
            ) == split(s@.subrange(lo as int, hi as int), sep)[k],
{
    let ghost whole = split(s@.subrange(lo as int, hi as int), sep);
    let mut r: Vec<(usize, usize)> = Vec::new();
    let mut start = lo;
    let mut i = lo;
    proof {
        assert(s@.subrange(lo as int, hi as int) =~= s@.subrange(start as int, hi as int));
    }
    while i < hi
        invariant
            lo <= start <= i <= hi <= s@.len(),
            forall|j: int| start <= j < i ==> #[trigger] s@[j] != sep,
            whole == split(s@.subrange(lo as int, hi as int), sep),
            whole == r@.map_values(|p: (usize, usize)| s@.subrange(p.0 as int, p.1 as int))
                + split(s@.subrange(start as int, hi as int), sep),
            forall|k: int| 0 <= k < r@.len() ==> lo <= (#[trigger] r@[k]).0 <= r@[k].1 <= start,
        decreases hi - i,
    {
        if s[i] == sep {
            proof {
                let rest = s@.subrange(start as int, hi as int);
                assert forall|j: int| 0 <= j < i - start implies #[trigger] rest[j] != sep by {
                    assert(rest[j] == s@[start + j]);
                }
                lemma_first_index_at(rest, sep, i - start);
                assert(rest.take(i - start) =~= s@.subrange(start as int, i as int));
                assert(rest.skip(i - start + 1) =~= s@.subrange(i + 1, hi as int));
            }
            let ghost before = r@;
            r.push((start, i));
            proof {
                assert(r@.map_values(|p: (usize, usize)| s@.subrange(p.0 as int, p.1 as int))
                    =~= before.map_values(|p: (usize, usize)| s@.subrange(p.0 as int, p.1 as int))
                    + seq![s@.subrange(start as int, i as int)]);
            }
            start = i + 1;
        }
        i = i + 1;
    }
    proof {
        let rest = s@.subrange(start as int, hi as int);
        assert forall|j: int| 0 <= j < rest.len() implies #[trigger] rest[j] != sep by {
            assert(rest[j] == s@[start + j]);
        }
        lemma_first_index_at(rest, sep, rest.len() as int);
    }
    let ghost before = r@;
    r.push((start, hi));
    proof {
        assert(r@.map_values(|p: (usize, usize)| s@.subrange(p.0 as int, p.1 as int))
            =~= before.map_values(|p: (usize, usize)| s@.subrange(p.0 as int, p.1 as int))
            + seq![s@.subrange(start as int, hi as int)]);
        assert(whole =~= r@.map_values(|p: (usize, usize)| s@.subrange(p.0 as int, p.1 as int)));
        assert forall|k: int| 0 <= k < r@.len() implies lo <= (#[trigger] r@[k]).0 <= r@[k].1 <= hi
            && s@.subrange(r@[k].0 as int, r@[k].1 as int) == whole[k] by {
            assert(whole[k] == r@.map_values(
                |p: (usize, usize)| s@.subrange(p.0 as int, p.1 as int),
            )[k]);
        }
    }
    r
}


/// PiecePlacementParseError represents an error encountered while parsing
/// the piece placement field of a FEN position.
#[derive(Debug, PartialEq, Eq)]
pub enum PiecePlacementParseError {
    /// A jump value was too long and overshot.
    JumpTooLong,
    /// An invalid piece identifier.
    InvalidPieceIdent(char),
    /// Insufficient data to fill the entire named file.
    FileDataIncomplete(String),
    /// More ranks than the board has, which is given.
    TooManyRanks(usize),
}

/// The outcome of reading a piece placement field: the pieces placed, as
/// (piece index, square index) pairs in reading order, or the first error.
pub enum Placement {
    Done(Seq<(int, int)>),
    JumpTooLong,
    InvalidPiece(char),
    FileIncomplete(int),
    TooManyRanks,
}

/// Reads the data of one rank, from file `file` on, on a board with `f`
/// files. Digits skip that many empty squares; the other characters name the
/// piece of that index in `table`.
pub open spec fn place_rank(
    data: Seq<char>,
    f: int,
    rank: int,
    file: int,
    table: Seq<char>,
    acc: Seq<(int, int)>,
) -> Placement
    decreases data.len(),
{
    if data.len() == 0 {
        if file < f {
            Placement::FileIncomplete(file)
        } else {
            Placement::Done(acc)
        }
    } else if file >= f {
        Placement::JumpTooLong
    } else {
        let c = data[0];
        if '1' <= c && c <= '8' {
            let next = file + (c as int - '1' as int);
            if next >= f {
                Placement::JumpTooLong
            } else {
                place_rank(data.drop_first(), f, rank, next + 1, table, acc)
            }
        } else {
            let p = first_index(table, c);
            if p < 0 {
                Placement::InvalidPiece(c)
            } else {
                place_rank(data.drop_first(), f, rank, file + 1, table, acc.push((p, rank * f + file)))
            }
        }
    }
}

/// Reads the given ranks, the first being rank `rank`, downwards.
pub open spec fn place_ranks(
    ranks: Seq<Seq<char>>,
    f: int,
    rank: int,
    table: Seq<char>,
    acc: Seq<(int, int)>,
) -> Placement
    decreases ranks.len(),
{
    if ranks.len() == 0 {
        Placement::Done(acc)
    } else if rank < 0 {
        Placement::TooManyRanks
    } else {
        match place_rank(ranks[0], f, rank, 0, table, acc) {
            Placement::Done(next) => place_ranks(ranks.drop_first(), f, rank - 1, table, next),
            other => other,
        }
    }
}

/// Reads a piece placement field for a board with `f` files and `r` ranks:
/// ranks are separated by `/`, from the last rank down, each rank from the
/// first file on.
pub open spec fn placement(s: Seq<char>, f: int, r: int, table: Seq<char>) -> Placement {
    place_ranks(split(s, '/'), f, r - 1, table, Seq::empty())
}

/// The placed pieces with their indices widened.
pub open spec fn widen(v: Seq<(u8, u8)>) -> Seq<(int, int)> {
    v.map_values(|e: (u8, u8)| (e.0 as int, e.1 as int))
}

/// Every placed piece has an index below `pieces` and a square below
/// `squares`.
pub open spec fn entries_bounded(v: Seq<(u8, u8)>, pieces: int, squares: int) -> bool {
    forall|k: int| 0 <= k < v.len() ==> (#[trigger] v[k]).0 < pieces && v[k].1 < squares
}

/// The error agrees with the failed outcome of reading.
pub open spec fn placement_error(e: PiecePlacementParseError, outcome: Placement, ranks: int) -> bool {
    match outcome {
        Placement::Done(acc) => false,
        Placement::JumpTooLong => e matches PiecePlacementParseError::JumpTooLong,
        Placement::InvalidPiece(c) => e matches PiecePlacementParseError::InvalidPieceIdent(d) && d == c,
        Placement::FileIncomplete(x) => e matches PiecePlacementParseError::FileDataIncomplete(name)
            && name@ == seq![file_letter(x)],
        Placement::TooManyRanks => e matches PiecePlacementParseError::TooManyRanks(n) && n == ranks,
    }
}

/// The letter of a file.
pub open spec fn file_letter(file: int) -> char {
    ('a' as int + file) as char
}

/// The exec result agrees with the outcome of reading.
pub open spec fn placement_result(
    r: Result<Vec<(u8, u8)>, PiecePlacementParseError>,
    outcome: Placement,
    ranks: int,
) -> bool {
    match r {
        Ok(v) => outcome matches Placement::Done(acc) && widen(v@) == acc,
        Err(e) => placement_error(e, outcome, ranks),
    }
}

/// Finds the index of the first occurrence of `c` in `table`.
pub fn find(table: &[char], c: char) -> (r: Option<u8>)
    requires
        table@.len() < 256,
    ensures
        first_index(table@, c) < 0 ==> r is None,
        first_index(table@, c) >= 0 ==> r == Some(first_index(table@, c) as u8),
        r matches Some(p) ==> p as int == first_index(table@, c),
{
    proof {
        lemma_first_index(table@, c);
    }
    let mut i: usize = 0;
    while i < table.len()
        invariant
            0 <= i <= table@.len() < 256,
            forall|j: int| 0 <= j < i ==> #[trigger] table@[j] != c,
        decreases table@.len() - i,
    {
        if table[i] == c {
            proof {
                lemma_first_index_at(table@, c, i as int);
            }
            return Some(i as u8);
        }
        i = i + 1;
    }
    proof {
        lemma_first_index_at(table@, c, i as int);
    }
    None
}

/// The name of a file: its letter.
fn file_name(file: u8) -> (r: String)
    requires
        file < 8,
    ensures
        r@ == seq![file_letter(file as int)],
{
    let name = match file {
        0 => "a",
        1 => "b",
        2 => "c",
        3 => "d",
        4 => "e",
        5 => "f",
        6 => "g",
        _ => "h",
    };
    proof {
        reveal_strlit("a");
        reveal_strlit("b");
        reveal_strlit("c");
        reveal_strlit("d");
        reveal_strlit("e");
        reveal_strlit("f");
        reveal_strlit("g");
        reveal_strlit("h");
    }
    name.to_owned()
}

/// Reads the data of one rank, `s[lo..hi]`, appending the placed pieces.
fn parse_rank(
    s: &[char],
    lo: usize,
    hi: usize,
    f: u8,
    ranks: u8,
    rank: u8,
    table: &[char],
    acc: &mut Vec<(u8, u8)>,
) -> (r: Result<(), PiecePlacementParseError>)
    requires
        lo <= hi <= s@.len(),
        2 <= f <= 8,
        rank < ranks <= 8,
        table@.len() < 256,
        entries_bounded(old(acc)@, table@.len() as int, f * ranks),
    ensures
        entries_bounded(final(acc)@, table@.len() as int, f * ranks),
        match place_rank(s@.subrange(lo as int, hi as int), f as int, rank as int, 0, table@, widen(old(acc)@)) {
            Placement::Done(next) => r is Ok && widen(final(acc)@) == next,
            Placement::JumpTooLong => r matches Err(PiecePlacementParseError::JumpTooLong),
            Placement::InvalidPiece(c) => r matches Err(PiecePlacementParseError::InvalidPieceIdent(d)) && d == c,
            Placement::FileIncomplete(x) => r matches Err(PiecePlacementParseError::FileDataIncomplete(name))
                && name@ == seq![file_letter(x)],
            Placement::TooManyRanks => false,
        },
{
    let ghost whole = place_rank(s@.subrange(lo as int, hi as int), f as int, rank as int, 0, table@, widen(old(acc)@));
    let mut file: u8 = 0;
    let mut i = lo;
    while i < hi
        invariant
            lo <= i <= hi <= s@.len(),
            2 <= f <= 8,
            rank < ranks <= 8,
            table@.len() < 256,
            file <= f,
            entries_bounded(acc@, table@.len() as int, f * ranks),
            whole == place_rank(s@.subrange(lo as int, hi as int), f as int, rank as int, 0, table@, widen(old(acc)@)),
            whole == place_rank(s@.subrange(i as int, hi as int), f as int, rank as int, file as int, table@, widen(acc@)),
        decreases hi - i,
    {
        proof {
            assert(s@.subrange(i as int, hi as int).drop_first() =~= s@.subrange(i + 1, hi as int));
            assert(s@.subrange(i as int, hi as int).len() > 0);
            assert(s@.subrange(i as int, hi as int)[0] == s@[i as int]);
        }
        if file >= f {
            return Err(PiecePlacementParseError::JumpTooLong);
        }
        let c = s[i];
        if '1' <= c && c <= '8' {
            let skip = (c as u32 - '1' as u32) as u8;
            assert(skip as int == c as int - '1' as int);
            let next = file + skip;
            if next >= f {
                return Err(PiecePlacementParseError::JumpTooLong);
            }
            file = next + 1;
        } else {
            match find(table, c) {
                Some(p) => {
                    let ghost before = acc@;
                    assert(rank * f + file < 64 && rank * f + file < f * ranks) by (nonlinear_arith)
                        requires
                            rank < ranks,
                            ranks <= 8,
                            f <= 8,
                            file < f,
                    ;
                    acc.push((p, rank * f + file));
                    proof {
                        assert(widen(acc@) =~= widen(before).push((p as int, rank * f + file)));
                        assert(p as int == first_index(table@, c));
                        lemma_first_index(table@, c);
                        assert forall|k: int| 0 <= k < acc@.len() implies (#[trigger] acc@[k]).0 < table@.len()
                            && acc@[k].1 < f * ranks by {
                            if k < before.len() {
                                assert(acc@[k] == before[k]);
                            }
                        }
                    }
                    file = file + 1;
                },
                None => {
                    return Err(PiecePlacementParseError::InvalidPieceIdent(c));
                },
            }
        }
        i = i + 1;
    }
    if file < f {
        return Err(PiecePlacementParseError::FileDataIncomplete(file_name(file)));
    }
    Ok(())
}

/// Reads the piece placement field `s[lo..hi]` of a board with `f` files
/// and `r` ranks, naming the pieces by their characters in `table`. It gives
/// the placed pieces as (piece index, square index) pairs in reading order.
pub fn piece_placement(
    s: &[char],
    lo: usize,
    hi: usize,
    f: u8,
    r: u8,
    table: &[char],
) -> (res: Result<Vec<(u8, u8)>, PiecePlacementParseError>)
    requires
        lo <= hi <= s@.len(),
        2 <= f <= 8,
        1 <= r <= 8,
        table@.len() < 256,
    ensures
        placement_result(res, placement(s@.subrange(lo as int, hi as int), f as int, r as int, table@), r as int),
        res matches Ok(v) ==> entries_bounded(v@, table@.len() as int, f * r),
{
    let ranks = split_ranges(s, lo, hi, '/');
    let ghost parts = split(s@.subrange(lo as int, hi as int), '/');
    let ghost whole = placement(s@.subrange(lo as int, hi as int), f as int, r as int, table@);
    let mut acc: Vec<(u8, u8)> = Vec::new();
    let mut rank: u8 = r - 1;
    let mut exhausted = false;
    let mut k: usize = 0;
    proof {
        assert(parts.skip(0) =~= parts);
        assert(widen(acc@) =~= Seq::<(int, int)>::empty());
    }
    while k < ranks.len()
        invariant
            0 <= k <= ranks@.len() == parts.len(),
            lo <= hi <= s@.len(),
            2 <= f <= 8,
            1 <= r <= 8,
            table@.len() < 256,
            rank < r,
            entries_bounded(acc@, table@.len() as int, f * r),
            parts == split(s@.subrange(lo as int, hi as int), '/'),
            whole == placement(s@.subrange(lo as int, hi as int), f as int, r as int, table@),
            forall|j: int|
                0 <= j < ranks@.len() ==> lo <= (#[trigger] ranks@[j]).0 <= ranks@[j].1 <= hi && s@.subrange(
                    ranks@[j].0 as int,
                    ranks@[j].1 as int,
                ) == parts[j],
            whole == place_ranks(parts.skip(k as int), f as int, if exhausted {
                -1
            } else {
                rank as int
            }, table@, widen(acc@)),
        decreases ranks@.len() - k,
    {
        proof {
            assert(parts.skip(k as int).len() > 0);
            assert(parts.skip(k as int)[0] == parts[k as int]);
            assert(parts.skip(k as int).drop_first() =~= parts.skip(k + 1));
        }
        if exhausted {
            return Err(PiecePlacementParseError::TooManyRanks(r as usize));
        }
        let (a, b) = ranks[k];
        match parse_rank(s, a, b, f, r, rank, table, &mut acc) {
            Ok(()) => {},
            Err(e) => {
                return Err(e);
            },
        }
        if rank == 0 {
            exhausted = true;
        } else {
            rank = rank - 1;
        }
        k = k + 1;
    }
    proof {
        assert(parts.skip(k as int).len() == 0);
    }
    Ok(acc)
}


/// The integer parsing error of std.
#[verifier::external_type_specification]
#[verifier::external_body]
pub struct ExParseIntError(std::num::ParseIntError);

/// The value of a string of decimal digits.
pub open spec fn digits_value(s: Seq<char>) -> int
    decreases s.len(),
{
    if s.len() == 0 {
        0
    } else {
        digits_value(s.drop_last()) * 10 + (s.last() as int - '0' as int)
    }
}

/// The number written by `s` as std's integer parsing reads it for an
/// unsigned type: an optional `+` followed by one or more decimal digits.
pub open spec fn decimal(s: Seq<char>) -> Option<int> {
    let body = if s.len() > 0 && s[0] == '+' {
        s.drop_first()
    } else {
        s
    };
    if body.len() > 0 && forall|i: int| 0 <= i < body.len() ==> '0' <= #[trigger] body[i] && body[i] <= '9' {
        Some(digits_value(body))
    } else {
        None
    }
}

/// The string writes a number no greater than `max`.
pub open spec fn decimal_fits(s: Seq<char>, max: int) -> bool {
    decimal(s) matches Some(v) && v <= max
}

/// The string made of the given characters, as std's `String::from_iter`
/// builds it.
#[verifier::external_body]
pub(crate) fn string_of(chars: &[char]) -> (r: String)
    ensures
        r@ == chars@,
{
    String::from_iter(chars.iter())
}

/// `str::parse::<u8>` from std: it succeeds exactly on an optional `+`
/// followed by decimal digits of a value below 256, and gives that value.
#[verifier::external_body]
pub(crate) fn parse_u8(text: &str) -> (r: Result<u8, std::num::ParseIntError>)
    ensures
        r is Ok == decimal_fits(text@, u8::MAX as int),
        r matches Ok(v) ==> decimal(text@) == Some(v as int),
{
    text.parse::<u8>()
}

/// `str::parse::<u16>` from std: it succeeds exactly on an optional `+`
/// followed by decimal digits of a value below 65536, and gives that value.
#[verifier::external_body]
pub(crate) fn parse_u16(text: &str) -> (r: Result<u16, std::num::ParseIntError>)
    ensures
        r is Ok == decimal_fits(text@, u16::MAX as int),
        r matches Ok(v) ==> decimal(text@) == Some(v as int),
{
    text.parse::<u16>()
}

/// `str::parse::<usize>` from std: it succeeds exactly on an optional `+`
/// followed by decimal digits of a value that fits a `usize`, and gives
/// that value.
#[verifier::external_body]
pub(crate) fn parse_usize(text: &str) -> (r: Result<usize, std::num::ParseIntError>)
    ensures
        r is Ok == decimal_fits(text@, usize::MAX as int),
        r matches Ok(v) ==> decimal(text@) == Some(v as int),
{
    text.parse::<usize>()
}

/// `str::parse::<u128>` from std: it succeeds exactly on an optional `+`
/// followed by decimal digits of a value below 2^128, and gives that value.
#[verifier::external_body]
pub(crate) fn parse_u128(text: &str) -> (r: Result<u128, std::num::ParseIntError>)
    ensures
        r is Ok == decimal_fits(text@, u128::MAX as int),
        r matches Ok(v) ==> decimal(text@) == Some(v as int),
{
    text.parse::<u128>()
}

/// Parses `s[lo..hi]` as a `u8`, as std's `str::parse` does.
pub fn parse_u8_field(s: &[char], lo: usize, hi: usize) -> (r: Result<u8, std::num::ParseIntError>)
    requires
        lo <= hi <= s@.len(),
    ensures
        r is Ok == decimal_fits(s@.subrange(lo as int, hi as int), u8::MAX as int),
        r matches Ok(v) ==> decimal(s@.subrange(lo as int, hi as int)) == Some(v as int),
{
    let field = string_of(slice_of(s, lo, hi).as_slice());
    parse_u8(field.as_str())
}

/// The ply count of a position from its full-move number: twice the number,
/// less one when the side to move is the one whose turns fall on odd plies
/// (`odd`) and less two otherwise, modulo 2^16.
pub open spec fn plies_of(fullmoves: int, odd: bool) -> int {
    if odd {
        (2 * fullmoves - 1) % 0x10000
    } else {
        (2 * fullmoves - 2) % 0x10000
    }
}

/// Computes the ply count from the full-move number field `s[lo..hi]`.
pub fn ply_count(s: &[char], lo: usize, hi: usize, odd: bool) -> (r: Result<
    u16,
    std::num::ParseIntError,
>)
    requires
        lo <= hi <= s@.len(),
    ensures
        r is Ok == decimal_fits(s@.subrange(lo as int, hi as int), u16::MAX as int),
        r matches Ok(p) ==> (decimal(s@.subrange(lo as int, hi as int)) matches Some(v) && p as int
            == plies_of(v, odd)),
{
    let field = string_of(slice_of(s, lo, hi).as_slice());
    match parse_u16(field.as_str()) {
        Ok(fullmoves) => {
            let doubled = fullmoves.wrapping_mul(2);
            let r = if odd {
                doubled.wrapping_sub(1)
            } else {
                doubled.wrapping_sub(2)
            };
            proof {
                let d = 2 * (fullmoves as int);
                assert(doubled as int == d % 0x10000);
                if odd {
                    assert(r as int == (d - 1) % 0x10000) by {
                        vstd::arithmetic::div_mod::lemma_add_mod_noop(d, -1, 0x10000);
                    }
                } else {
                    assert(r as int == (d - 2) % 0x10000) by {
                        vstd::arithmetic::div_mod::lemma_add_mod_noop(d, -2, 0x10000);
                    }
                }
            }
            Ok(r)
        },
        Err(e) => Err(e),
    }
}

/// A copy of `s[lo..hi]`.
pub fn slice_of(s: &[char], lo: usize, hi: usize) -> (r: Vec<char>)
    requires
        lo <= hi <= s@.len(),
    ensures
        r@ == s@.subrange(lo as int, hi as int),
{
    let mut r: Vec<char> = Vec::new();
    let mut i = lo;
    while i < hi
        invariant
            lo <= i <= hi <= s@.len(),
            r@ == s@.subrange(lo as int, i as int),
        decreases hi - i,
    {
        r.push(s[i]);
        i = i + 1;
        proof {
            assert(r@ =~= s@.subrange(lo as int, i as int));
        }
    }
    r
}

/// Whether `s[lo..hi]` is exactly the characters of `word`.
pub fn field_is(s: &[char], lo: usize, hi: usize, word: &str) -> (r: bool)
    requires
        lo <= hi <= s@.len(),
    ensures
        r == (s@.subrange(lo as int, hi as int) == word@),
{
    let w = chars_of(word);
    if hi - lo != w.len() {
        proof {
            assert(s@.subrange(lo as int, hi as int).len() != word@.len());
        }
        return false;
    }
    let mut i: usize = 0;
    while i < w.len()
        invariant
            lo <= hi <= s@.len(),
            hi - lo == w@.len(),
            w@ == word@,
            0 <= i <= w@.len(),
            forall|j: int| 0 <= j < i ==> s@[lo + j] == #[trigger] w@[j],
        decreases w@.len() - i,
    {
        if s[lo + i] != w[i] {
            proof {
                assert(s@.subrange(lo as int, hi as int)[i as int] != word@[i as int]);
            }
            return false;
        }
        i = i + 1;
    }
    proof {
        assert(s@.subrange(lo as int, hi as int) =~= word@);
    }
    true
}


/// The File index written by the text on a board with `f` Files: one
/// letter, `a` for the first File.
pub open spec fn file_text(t: Seq<char>, f: int) -> Option<int> {
    if t.len() == 1 && 97 <= (t[0] as int) < 97 + f {
        Some(t[0] as int - 97)
    } else {
        None
    }
}

/// The Rank index written by the text on a board with `r` Ranks: the
/// number of the Rank, counted from 1.
pub open spec fn rank_text(t: Seq<char>, r: int) -> Option<int> {
    match decimal(t) {
        Some(v) => if 1 <= v && v <= r {
            Some(v - 1)
        } else {
            None
        },
        None => None,
    }
}

/// Text that is not read as a Move for want of a Square at its start: its
/// first two characters are ASCII and do not name a Square of a board with
/// `f` Files and `r` Ranks.
pub open spec fn bad_leading_square(t: Seq<char>, f: int, r: int) -> bool {
    &&& t.len() >= 2
    &&& vstd::utf8::is_ascii_chars(t.subrange(0, 2))
    &&& square_text(t.subrange(0, 2), f, r) is None
}

/// The Square index written by the text on a board with `f` Files and `r`
/// Ranks: its File letter followed by its Rank number.
pub open spec fn square_text(t: Seq<char>, f: int, r: int) -> Option<int> {
    if t.len() < 2 {
        None
    } else {
        match (file_text(t.take(1), f), rank_text(t.skip(1), r)) {
            (Some(x), Some(y)) => Some(y * f + x),
            _ => None,
        }
    }
}

/// The digit of a number below ten.
pub open spec fn digit(v: int) -> char {
    ('0' as int + v) as char
}

/// The name of the Rank with the given index: its number, counted from 1.
pub open spec fn rank_name(y: int) -> Seq<char> {
    seq![digit(y + 1)]
}

/// The name of the Square with the given index on a board with `f` Files.
pub open spec fn square_name(q: int, f: int) -> Seq<char> {
    seq![file_letter(q % f)] + rank_name(q / f)
}

/// Reading a File letter.
pub fn parse_file(s: &[char], lo: usize, hi: usize, f: u8) -> (r: Option<u8>)
    requires
        lo <= hi <= s@.len(),
        f <= 26,
    ensures
        match file_text(s@.subrange(lo as int, hi as int), f as int) {
            Some(x) => r == Some(x as u8),
            None => r is None,
        },
{
    if hi - lo != 1 {
        return None;
    }
    let c = s[lo];
    if 'a' <= c && c <= 'z' {
        let x = (c as u32 - 'a' as u32) as u8;
        if x < f {
            return Some(x);
        }
    }
    None
}

/// Reading a Rank number.
pub fn parse_rank_number(s: &[char], lo: usize, hi: usize, r: u8) -> (res: Option<u8>)
    requires
        lo <= hi <= s@.len(),
    ensures
        match rank_text(s@.subrange(lo as int, hi as int), r as int) {
            Some(y) => res == Some(y as u8),
            None => res is None,
        },
{
    match parse_u8_field(s, lo, hi) {
        Ok(v) => if 1 <= v && v <= r {
            Some(v - 1)
        } else {
            None
        },
        Err(_) => {
            proof {
                let t = s@.subrange(lo as int, hi as int);
                if decimal(t) is Some {
                    assert(decimal(t)->0 > 255);
                }
            }
            None
        },
    }
}

/// Reading a Square name.
pub fn parse_square(s: &[char], lo: usize, hi: usize, f: u8, r: u8) -> (res: Option<u8>)
    requires
        lo <= hi <= s@.len(),
        1 <= f <= 8,
        1 <= r <= 8,
    ensures
        match square_text(s@.subrange(lo as int, hi as int), f as int, r as int) {
            Some(q) => res == Some(q as u8),
            None => res is None,
        },
{
    let ghost t = s@.subrange(lo as int, hi as int);
    if hi - lo < 2 {
        return None;
    }
    proof {
        assert(t.take(1) =~= s@.subrange(lo as int, lo + 1));
        assert(t.skip(1) =~= s@.subrange(lo + 1, hi as int));
    }
    match (parse_file(s, lo, lo + 1, f), parse_rank_number(s, lo + 1, hi, r)) {
        (Some(x), Some(y)) => {
            assert(y * f + x < 64) by (nonlinear_arith)
                requires
                    x < f,
                    y < r,
                    f <= 8,
                    r <= 8,
            ;
            Some(y * f + x)
        },
        _ => None,
    }
}

/// The characters naming a Square.
pub fn square_chars(q: u8, f: u8) -> (r: Vec<char>)
    requires
        1 <= f <= 8,
        q < 9 * f,
    ensures
        r@ == square_name(q as int, f as int),
{
    let x = q % f;
    let y = q / f;
    let file_char = (('a' as u8) + x) as char;
    let rank_char = (('1' as u8) + y) as char;
    let mut v: Vec<char> = Vec::new();
    v.push(file_char);
    v.push(rank_char);
    proof {
        assert(y < 9) by (nonlinear_arith)
            requires
                q < 9 * f,
                f >= 1,
                y == q / f,
        ;
        assert(v@ =~= square_name(q as int, f as int));
    }
    v
}

/// Reading the name of a Square gives that Square back.
pub proof fn law_square_name_text(q: int, f: int, r: int)
    requires
        1 <= f <= 8,
        1 <= r <= 8,
        0 <= q < f * r,
    ensures
        square_text(square_name(q, f), f, r) == Some(q),
{
    let t = square_name(q, f);
    assert(q / f < r) by (nonlinear_arith)
        requires
            0 <= q < f * r,
            f >= 1,
    ;
    assert(0 <= q % f < f) by (nonlinear_arith)
        requires
            f >= 1,
    ;
    assert(q == (q / f) * f + q % f) by (nonlinear_arith)
        requires
            f >= 1,
    ;
    assert(t.take(1) =~= seq![file_letter(q % f)]);
    let d = t.skip(1);
    assert(d =~= seq![digit(q / f + 1)]);
    assert(d.drop_last() =~= Seq::<char>::empty());
    assert(d.last() as int == '0' as int + q / f + 1);
    assert(digits_value(d) == q / f + 1) by {
        reveal_with_fuel(digits_value, 2);
    }
    assert(decimal(d) == Some(q / f + 1));
}

/// The Squares given the piece of index `p` by the placed pieces.
pub open spec fn placed(acc: Seq<(int, int)>, p: int) -> Set<int>
    decreases acc.len(),
{
    if acc.len() == 0 {
        Set::empty()
    } else {
        let rest = placed(acc.drop_last(), p);
        if acc.last().0 == p {
            rest.insert(acc.last().1)
        } else {
            rest
        }
    }
}

/// The Square last given the piece of index `p` by the placed pieces, or
/// `default` when none is.
pub open spec fn last_placed(acc: Seq<(int, int)>, p: int, default: int) -> int
    decreases acc.len(),
{
    if acc.len() == 0 {
        default
    } else if acc.last().0 == p {
        acc.last().1
    } else {
        last_placed(acc.drop_last(), p, default)
    }
}

} // verus!
