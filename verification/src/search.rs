//! The search of an Isolation engine: its limits, its scores, and the
//! choice of a Move.
use vstd::prelude::*;
use crate::games::isolation::{zone, BitBoard, Color, Move, Piece, Position, State};
use crate::interface::parse::{decimal, decimal_fits, parse_u128, parse_usize};

verus! {

/// The limits of a search, each unset when not given.
#[derive(Debug, PartialEq, Eq)]
pub struct Limits {
    /// The greatest depth to search to.
    pub maxdepth: Option<usize>,
    /// The greatest number of nodes to search.
    pub maxnodes: Option<usize>,
    /// The time to search for, in milliseconds.
    pub movetime: Option<u128>,
    /// The number of Moves to the next time control.
    pub movestogo: Option<usize>,
}

/// The values of the flags of a `go` command, each unset when not given.
pub struct GoFlags {
    /// The increment of the first player.
    pub p1inc: Option<String>,
    /// The increment of the second player.
    pub p2inc: Option<String>,
    /// The time left to the first player.
    pub p1time: Option<String>,
    /// The time left to the second player.
    pub p2time: Option<String>,
    /// The number of Moves to the next time control.
    pub movestogo: Option<String>,
    /// The depth to search to.
    pub depth: Option<String>,
    /// The number of nodes to search.
    pub nodes: Option<String>,
    /// The time to search for.
    pub movetime: Option<String>,
    /// The search goes on until stopped.
    pub infinite: Option<String>,
}

/// An error in the flags of a `go` command.
#[derive(Debug, PartialEq, Eq)]
pub enum LimitsError {
    /// A time control flag was given alongside `infinite`.
    BadFlagSet,
    /// The value of a flag is not a number of the right kind.
    BadNumber(std::num::ParseIntError),
}

/// The number given by a flag: `Some(None)` when the flag is unset,
/// `Some(Some(v))` for its value, `None` when the value does not read as a
/// number up to `max`.
pub open spec fn flag_number(flag: Option<String>, max: int) -> Option<Option<int>> {
    match flag {
        None => Some(None),
        Some(text) => if decimal_fits(text@, max) {
            Some(Some(decimal(text@)->0))
        } else {
            None
        },
    }
}

/// The time to search for under a standard time control: a twentieth of
/// the time left and half the increment, and at least one millisecond.
pub open spec fn time_share(time: int, incr: int) -> int {
    let share = time / 20 + incr / 2;
    if share > 1 {
        share
    } else {
        1
    }
}

/// Whether the flags set a standard time control.
pub open spec fn standard_control(flags: GoFlags) -> bool {
    flags.p2time is Some || flags.p1time is Some || flags.p2inc is Some || flags.p1inc is Some
}

/// The limits that the flags give, when every flag that is read gives a
/// number: the time control flags of the side to move when a standard time
/// control is set, else `movetime`.
pub open spec fn limits_of(flags: GoFlags, side: Color) -> Option<(Option<int>, Option<int>, Option<int>, Option<int>)> {
    let nodes = flag_number(flags.nodes, usize::MAX as int);
    let depth = flag_number(flags.depth, usize::MAX as int);
    let togo = flag_number(flags.movestogo, usize::MAX as int);
    let (time_flag, incr_flag) = match side {
        Color::White => (flags.p1time, flags.p1inc),
        Color::Black => (flags.p2time, flags.p2inc),
    };
    let time = flag_number(time_flag, u128::MAX as int);
    let incr = flag_number(incr_flag, u128::MAX as int);
    let movetime = flag_number(flags.movetime, u128::MAX as int);
    if nodes is None || depth is None {
        None
    } else if standard_control(flags) && (time is None || incr is None) {
        None
    } else if !standard_control(flags) && movetime is None {
        None
    } else if togo is None {
        None
    } else {
        Some(
            (
                nodes->0,
                depth->0,
                if standard_control(flags) {
                    Some(
                        time_share(
                            match time->0 {
                                Some(v) => v,
                                None => 0,
                            },
                            match incr->0 {
                                Some(v) => v,
                                None => 0,
                            },
                        ),
                    )
                } else {
                    movetime->0
                },
                togo->0,
            ),
        )
    }
}

/// The number given by a flag, or unset.
fn read_usize(flag: &Option<String>) -> (r: Result<Option<usize>, std::num::ParseIntError>)
    ensures
        match flag_number(*flag, usize::MAX as int) {
            None => r is Err,
            Some(None) => r == Ok::<Option<usize>, std::num::ParseIntError>(None),
            Some(Some(v)) => r matches Ok(Some(x)) && x == v,
        },
{
    match flag {
        None => Ok(None),
        Some(text) => match parse_usize(text.as_str()) {
            Ok(v) => Ok(Some(v)),
            Err(e) => Err(e),
        },
    }
}

/// The number given by a flag, or unset.
fn read_u128(flag: &Option<String>) -> (r: Result<Option<u128>, std::num::ParseIntError>)
    ensures
        match flag_number(*flag, u128::MAX as int) {
            None => r is Err,
            Some(None) => r == Ok::<Option<u128>, std::num::ParseIntError>(None),
            Some(Some(v)) => r matches Ok(Some(x)) && x == v,
        },
{
    match flag {
        None => Ok(None),
        Some(text) => match parse_u128(text.as_str()) {
            Ok(v) => Ok(Some(v)),
            Err(e) => Err(e),
        },
    }
}

/// Reads the limits of a search from the flags of a `go` command, for the
/// given side to move. `infinite` may not be given with any time control
/// flag; the numbers are read in the order nodes, depth, time control,
/// moves to go, and the first that does not read is the error.
pub fn parse_limits(flags: &GoFlags, side: Color) -> (r: Result<Limits, LimitsError>)
    ensures
        ({
            let std_tc = standard_control(*flags);
            let oth_tc = flags.depth is Some || flags.nodes is Some || flags.movetime is Some;
            &&& flags.infinite is Some && (std_tc || oth_tc) ==> r == Err::<Limits, LimitsError>(
                LimitsError::BadFlagSet,
            )
            &&& !(flags.infinite is Some && (std_tc || oth_tc)) ==> match limits_of(*flags, side) {
                None => r matches Err(LimitsError::BadNumber(_)),
                Some((nodes, depth, time, togo)) => r matches Ok(l) && (match l.maxnodes {
                    Some(x) => nodes == Some(x as int),
                    None => nodes is None,
                }) && (match l.maxdepth {
                    Some(x) => depth == Some(x as int),
                    None => depth is None,
                }) && (match l.movetime {
                    Some(x) => time == Some(x as int),
                    None => time is None,
                }) && (match l.movestogo {
                    Some(x) => togo == Some(x as int),
                    None => togo is None,
                }),
            }
        }),
{
    let std_tc = flags.p2time.is_some() || flags.p1time.is_some() || flags.p2inc.is_some()
        || flags.p1inc.is_some();
    let oth_tc = flags.depth.is_some() || flags.nodes.is_some() || flags.movetime.is_some();
    if flags.infinite.is_some() && (std_tc || oth_tc) {
        return Err(LimitsError::BadFlagSet);
    }
    let maxnodes = match read_usize(&flags.nodes) {
        Ok(v) => v,
        Err(e) => {
            return Err(LimitsError::BadNumber(e));
        },
    };
    let maxdepth = match read_usize(&flags.depth) {
        Ok(v) => v,
        Err(e) => {
            return Err(LimitsError::BadNumber(e));
        },
    };
    let movetime = if std_tc {
        let (time_flag, incr_flag) = match side {
            Color::White => (&flags.p1time, &flags.p1inc),
            Color::Black => (&flags.p2time, &flags.p2inc),
        };
        let time = match read_u128(time_flag) {
            Ok(Some(v)) => v,
            Ok(None) => 0,
            Err(e) => {
                return Err(LimitsError::BadNumber(e));
            },
        };
        let incr = match read_u128(incr_flag) {
            Ok(Some(v)) => v,
            Ok(None) => 0,
            Err(e) => {
                return Err(LimitsError::BadNumber(e));
            },
        };
        let share = time / 20 + incr / 2;
        Some(
            if share > 1 {
                share
            } else {
                1
            },
        )
    } else {
        match read_u128(&flags.movetime) {
            Ok(v) => v,
            Err(e) => {
                return Err(LimitsError::BadNumber(e));
            },
        }
    };
    let movestogo = match read_usize(&flags.movestogo) {
        Ok(v) => v,
        Err(e) => {
            return Err(LimitsError::BadNumber(e));
        },
    };
    Ok(Limits { maxdepth, maxnodes, movetime, movestogo })
}

/// The score of a position, from the side to move's point of view.
#[derive(Copy, Clone, Debug, PartialEq, Eq, Structural)]
pub struct Score(pub i16);

/// The value of a position lost for the side to move.
pub const INF_VALUE: i16 = 32766;

impl Score {
    /// The score of a won position, [`INF_VALUE`].
    pub fn inf() -> (r: Score)
        ensures
            r.0 == INF_VALUE,
    {
        Score(INF_VALUE)
    }

    /// The score that stands for no score.
    pub fn nil() -> (r: Score)
        ensures
            r.0 == i16::MAX,
    {
        Score(i16::MAX)
    }

    /// The lowest score of a won position that is not yet won.
    pub fn max_till_mate() -> (r: Score)
        ensures
            r.0 == i16::MAX - 48,
    {
        Score(i16::MAX - 48)
    }

    /// The score from the other side's point of view.
    pub fn neg(self) -> (r: Score)
        requires
            self.0 > i16::MIN,
        ensures
            r.0 == -self.0,
    {
        Score(-self.0)
    }
}

/// The static evaluation of a position: a hundred for each tile next to the
/// pawn to move.
pub open spec fn evaluation(st: State) -> int {
    (zone(set![st.pawn(st.side)]).remove(st.pawn(st.side)).intersect(st.tiles).len() * 100) as int
}

/// The negamax value of a position searched to the given depth: the
/// evaluation at depth zero, a loss when the side to move has no Move, else
/// the best of the negated values after each Move.
pub open spec fn value(st: State, depth: nat) -> int
    decreases depth, 0nat,
{
    if depth == 0 {
        evaluation(st)
    } else if st.moves().len() == 0 {
        -INF_VALUE
    } else {
        best_value(st, st.moves(), (depth - 1) as nat)
    }
}

/// The best of the negated values after each of the given Moves, or a loss
/// when there is none.
pub open spec fn best_value(st: State, ms: Seq<Move>, depth: nat) -> int
    decreases depth, ms.len(),
{
    if ms.len() == 0 {
        -INF_VALUE
    } else {
        let rest = best_value(st, ms.drop_last(), depth);
        let last = -value(st.play(ms.last()), depth);
        if last > rest {
            last
        } else {
            rest
        }
    }
}

/// What an alpha-beta search with window `(alpha, beta)` promises of its
/// result `r` against the true value `v`: a result at or below `alpha` is an
/// upper bound, one at or above `beta` a lower bound, and one strictly
/// inside the window is exact.
pub open spec fn bounds(r: int, v: int, alpha: int, beta: int) -> bool {
    &&& r <= alpha ==> v <= r
    &&& alpha < r < beta ==> r == v
    &&& r >= beta ==> v >= r
}

/// Values lie between a loss and the best evaluation.
pub proof fn lemma_value_range(st: State, depth: nat)
    requires
        st.on_board(),
    ensures
        -INF_VALUE <= value(st, depth) <= INF_VALUE,
    decreases depth, 0nat,
{
    if depth == 0 {
        lemma_evaluation_range(st);
    } else if st.moves().len() > 0 {
        crate::games::isolation::lemma_moves_len(st);
        lemma_best_value_range(st, st.moves(), (depth - 1) as nat);
    }
}

/// The best of the values after some Moves lies between a loss and a win.
pub proof fn lemma_best_value_range(st: State, ms: Seq<Move>, depth: nat)
    requires
        st.on_board(),
        forall|k: int| 0 <= k < ms.len() ==> (#[trigger] ms[k]).on_board(),
    ensures
        -INF_VALUE <= best_value(st, ms, depth) <= INF_VALUE,
    decreases depth, ms.len(),
{
    if ms.len() > 0 {
        assert(ms.last() == ms[ms.len() - 1]);
        lemma_best_value_range(st, ms.drop_last(), depth);
        crate::games::isolation::lemma_play_on_board(st, ms.last());
        lemma_value_range(st.play(ms.last()), depth);
    }
}

/// The evaluation is at most a hundred per Square of the board.
pub proof fn lemma_evaluation_range(st: State)
    requires
        st.on_board(),
    ensures
        0 <= evaluation(st) <= 4800,
{
    let near = zone(set![st.pawn(st.side)]).remove(st.pawn(st.side)).intersect(st.tiles);
    vstd::set_lib::lemma_int_range(0, 48);
    vstd::set_lib::lemma_len_subset(near, crate::bits::below(48));
}

/// A longer list of Moves has a best value at least that of its prefix.
pub proof fn lemma_best_value_prefix(st: State, ms: Seq<Move>, depth: nat, i: int)
    requires
        0 <= i <= ms.len(),
    ensures
        best_value(st, ms.take(i), depth) <= best_value(st, ms, depth),
    decreases ms.len(),
{
    if i < ms.len() {
        assert(ms.drop_last().take(i) =~= ms.take(i));
        lemma_best_value_prefix(st, ms.drop_last(), depth, i);
    } else {
        assert(ms.take(i) =~= ms);
    }
}

/// Searches the Isolation positions of an engine.
#[derive(Clone)]
pub struct Searcher {
    position: Position,
}

impl Searcher {
    /// The position the Searcher searches.
    pub closed spec fn position(self) -> Position {
        self.position
    }

    /// Creates a Searcher of the given position.
    pub fn new(position: Position) -> (r: Searcher)
        ensures
            r.position() == position,
    {
        Searcher { position }
    }

    /// Sets the position to search.
    pub fn update_position(&mut self, position: Position)
        ensures
            final(self).position() == position,
    {
        self.position = position;
    }

    /// Searches the position within the given limits and returns the Move
    /// to play: the first Move generated, or the null Move when there is
    /// none. The node count is left as it is.
    pub fn search(&mut self, limits: Limits, nodes: &mut usize) -> (r: Move)
        requires
            old(self).position()@.on_board(),
        ensures
            *final(self) == *old(self),
            *final(nodes) == *old(nodes),
            old(self).position()@.moves().len() > 0 ==> r == old(self).position()@.moves()[0],
            old(self).position()@.moves().len() == 0 ==> r == Move::null_move(),
    {
        let moves = self.position.generate_moves();
        if moves.len() > 0 {
            moves[0]
        } else {
            Move::null()
        }
    }

    /// The static evaluation of the position: a hundred for each tile next
    /// to the pawn to move.
    pub fn evaluate(position: &Position) -> (r: Score)
        requires
            position@.on_board(),
        ensures
            r.0 == evaluation(position@),
    {
        let stm = position.side_to_move;
        let near = position.piece_bb(Piece::Tile).intersection(BitBoard::singles(position.color_bb(stm)));
        proof {
            lemma_evaluation_range(position@);
            assert(near@ =~= zone(set![position@.pawn(stm)]).remove(position@.pawn(stm)).intersect(position@.tiles));
        }
        Score((near.len() * 100) as i16)
    }

    /// The negamax search with alpha-beta pruning of the position to the
    /// given depth, in the window `(alpha, beta)`. When the window is not
    /// empty, its result stands to the negamax value as [`bounds`] says.
    pub fn negamax(&mut self, position: Position, alpha: Score, beta: Score, depth: u8) -> (r: Score)
        requires
            position@.on_board(),
            position.ply_count + depth <= u16::MAX,
            alpha.0 > i16::MIN,
            beta.0 > i16::MIN,
        ensures
            *final(self) == *old(self),
            -INF_VALUE <= r.0 <= INF_VALUE || r.0 == alpha.0 || r.0 == beta.0,
            alpha.0 < beta.0 ==> bounds(
                r.0 as int,
                value(position@, depth as nat),
                alpha.0 as int,
                beta.0 as int,
            ),
        decreases depth,
    {
        let ghost st = position@;
        proof {
            lemma_value_range(st, depth as nat);
        }
        if depth == 0 {
            proof {
                lemma_evaluation_range(st);
            }
            return Searcher::evaluate(&position);
        }
        let moves = position.generate_moves();
        if moves.len() == 0 {
            return Score::inf().neg();
        }
        let ghost d = (depth - 1) as nat;
        let mut low = alpha;
        let ghost alpha0 = alpha.0 as int;
        let mut best_score = Score::inf().neg();
        let mut i: usize = 0;
        proof {
            crate::games::isolation::lemma_moves_len(st);
            assert(moves@.take(0) =~= Seq::<Move>::empty());
        }
        while i < moves.len()
            invariant
                st == position@,
                st.on_board(),
                moves@ == st.moves(),
                moves@.len() > 0,
                d == depth - 1,
                depth > 0,
                position.ply_count + depth <= u16::MAX,
                forall|k: int| 0 <= k < st.moves().len() ==> (#[trigger] st.moves()[k]).on_board(),
                0 <= i <= moves@.len(),
                alpha0 > i16::MIN,
                beta.0 > i16::MIN,
                alpha0 == alpha.0,
                -INF_VALUE <= best_score.0 <= INF_VALUE || best_score.0 == alpha0 || best_score.0 == beta.0,
                alpha0 < beta.0 ==> best_score.0 <= beta.0,
                low.0 == (if best_score.0 > alpha0 {
                    best_score.0 as int
                } else {
                    alpha0
                }) || (best_score.0 == -INF_VALUE && low.0 == alpha0),
                low.0 >= alpha0,
                i == 0 ==> best_score.0 == -INF_VALUE,
                *self == *old(self),
                alpha0 < beta.0 ==> low.0 <= beta.0,
                alpha0 < beta.0 ==> bounds(
                    best_score.0 as int,
                    best_value(st, moves@.take(i as int), d),
                    alpha0,
                    beta.0 as int,
                ),
                alpha0 < beta.0 && low.0 == beta.0 ==> best_value(st, moves@.take(i as int), d)
                    >= beta.0,
                value(st, depth as nat) == best_value(st, moves@, d),
            decreases moves@.len() - i,
        {
            let mov = moves[i];
            let new_position = position.after_move::<true>(mov);
            let ghost child = st.play(mov);
            proof {
                crate::games::isolation::lemma_play_on_board(st, mov);
            }
            let child_score = self.negamax(new_position, beta.neg(), low.neg(), depth - 1);
            let score = child_score.neg();
            let ghost u = -value(child, d);
            proof {
                assert(moves@.take(i as int + 1).drop_last() =~= moves@.take(i as int));
                assert(moves@.take(i as int + 1).last() == mov);
                lemma_best_value_prefix(st, moves@, d, i as int + 1);
                lemma_best_value_prefix(st, moves@, d, i as int);
                lemma_value_range(child, d);
                let pre = best_value(st, moves@.take(i as int), d);
                let nxt = best_value(st, moves@.take(i as int + 1), d);
                assert(nxt == if u > pre {
                    u
                } else {
                    pre
                });
                if low.0 < beta.0 && score.0 > beta.0 {
                    assert(u >= score.0);
                }
            }
                        if score.0 > best_score.0 {
                best_score = score;
                if score.0 > low.0 {
                    low = score;
                    if score.0 > beta.0 {
                        proof {
                            if alpha0 < beta.0 {
                                assert(best_value(st, moves@.take(i as int + 1), d) >= beta.0);
                                assert(value(st, depth as nat) >= beta.0);
                            }
                        }
                        return beta;
                    }
                }
            }
            i = i + 1;
        }
        proof {
            assert(moves@.take(i as int) =~= moves@);
        }
        best_score
    }
}

} // verus!
