//! The board: an append-only sequence of moves in which no two moves claim
//! the same cell, with line extraction, candidate enumeration, and the
//! heuristic position evaluator.

use vstd::prelude::*;
use crate::api::Coordinate;
use crate::direction::Direction;
use crate::error::Error;
use crate::mv::{abs_i64, abs_int, lemma_sort_by_line_ensures, min_int, sort_by_line, sort_moves, FiveInRowMove, GameMove};
use crate::score::{div_trunc, Score, SCALE};

verus! {

/// No partial score of a single line exceeds this magnitude.
pub const LINE_BOUND: i128 = 5000 * 100_000_000;

#[derive(Debug)]
pub struct FiveInRow {
    pub moves: Vec<FiveInRowMove>,
}

/// Whether some move of `s` claims the cell `(x, y)`.
pub open spec fn occupied(s: Seq<FiveInRowMove>, x: int, y: int) -> bool {
    exists|i: int| 0 <= i < s.len() && s[i].x_spec() == x && s[i].y_spec() == y
}

/// No two moves of `s` claim the same cell.
pub open spec fn distinct_cells(s: Seq<FiveInRowMove>) -> bool {
    forall|i: int, j: int| 0 <= i < j < s.len() ==> !(#[trigger] s[i].same_cell(#[trigger] s[j]))
}

/// The candidate move for the cell `(x, y)`, tagged by whose options are
/// being enumerated.
pub open spec fn tagged_cell(for_me: bool, x: int, y: int) -> FiveInRowMove {
    if for_me {
        FiveInRowMove::Mine(x as i32, y as i32)
    } else {
        FiveInRowMove::Rivals(x as i32, y as i32)
    }
}

/// Whether the cell `(x, y)` is a candidate: unoccupied and within line
/// distance 3 of some move of `s`.
pub open spec fn cell_kept(s: Seq<FiveInRowMove>, for_me: bool, x: int, y: int) -> bool {
    &&& !occupied(s, x, y)
    &&& tagged_cell(for_me, x, y).min_dist_spec(s) <= 3
}

/// The candidates of one column slice of the scan window: cells `(x, y)`
/// with `y` in `[y0, y_end)`, in ascending order of `y`.
pub open spec fn column_candidates(
    s: Seq<FiveInRowMove>,
    for_me: bool,
    x: int,
    y0: int,
    y_end: int,
) -> Seq<FiveInRowMove>
    decreases y_end - y0,
{
    if y0 >= y_end {
        Seq::empty()
    } else {
        let rest = column_candidates(s, for_me, x, y0 + 1, y_end);
        if cell_kept(s, for_me, x, y0) {
            seq![tagged_cell(for_me, x, y0)] + rest
        } else {
            rest
        }
    }
}

/// The candidates of the scan window: columns `x` in `[x0, x_end)` in
/// ascending order, each scanned in ascending order of `y`.
pub open spec fn window_candidates(
    s: Seq<FiveInRowMove>,
    for_me: bool,
    x0: int,
    x_end: int,
    y0: int,
    y_end: int,
) -> Seq<FiveInRowMove>
    decreases x_end - x0,
{
    if x0 >= x_end {
        Seq::empty()
    } else {
        column_candidates(s, for_me, x0, y0, y_end) + window_candidates(
            s,
            for_me,
            x0 + 1,
            x_end,
            y0,
            y_end,
        )
    }
}

/// The least x coordinate of the moves of `s` (irrelevant when empty).
pub open spec fn min_x(s: Seq<FiveInRowMove>) -> int
    decreases s.len(),
{
    if s.len() == 0 {
        0
    } else if s.len() == 1 {
        s[0].x_spec()
    } else {
        min_int(min_x(s.drop_last()), s.last().x_spec())
    }
}

pub open spec fn max_x(s: Seq<FiveInRowMove>) -> int
    decreases s.len(),
{
    if s.len() == 0 {
        0
    } else if s.len() == 1 {
        s[0].x_spec()
    } else {
        max_int(max_x(s.drop_last()), s.last().x_spec())
    }
}

pub open spec fn min_y(s: Seq<FiveInRowMove>) -> int
    decreases s.len(),
{
    if s.len() == 0 {
        0
    } else if s.len() == 1 {
        s[0].y_spec()
    } else {
        min_int(min_y(s.drop_last()), s.last().y_spec())
    }
}

pub open spec fn max_y(s: Seq<FiveInRowMove>) -> int
    decreases s.len(),
{
    if s.len() == 0 {
        0
    } else if s.len() == 1 {
        s[0].y_spec()
    } else {
        max_int(max_y(s.drop_last()), s.last().y_spec())
    }
}

pub open spec fn max_int(a: int, b: int) -> int {
    if a >= b {
        a
    } else {
        b
    }
}

/// The candidate moves of a position: for the empty board the single move
/// at the origin; otherwise every unoccupied cell within line distance 3
/// of an existing move, scanned over the bounding box of the occupied
/// cells expanded by 3 (clamped to the coordinate range), column by
/// column.
pub open spec fn candidates_spec(s: Seq<FiveInRowMove>, for_me: bool) -> Seq<FiveInRowMove> {
    if s.len() == 0 {
        seq![tagged_cell(for_me, 0, 0)]
    } else {
        window_candidates(
            s,
            for_me,
            max_int(min_x(s) - 3, i32::MIN as int),
            min_int(max_x(s) + 3, i32::MAX as int) + 1,
            max_int(min_y(s) - 3, i32::MIN as int),
            min_int(max_y(s) + 3, i32::MAX as int) + 1,
        )
    }
}

impl FiveInRow {
    pub open spec fn wf_spec(self) -> bool {
        distinct_cells(self.moves@)
    }

    /// The empty board.
    pub fn create_empty() -> (r: FiveInRow)
        ensures
            r.moves@ == Seq::<FiveInRowMove>::empty(),
            r.wf_spec(),
    {
        FiveInRow { moves: Vec::new() }
    }

    /// A board holding exactly the given moves, in order.
    pub fn from_moves(moves: Vec<FiveInRowMove>) -> (r: FiveInRow)
        requires
            distinct_cells(moves@),
        ensures
            r.moves@ == moves@,
            r.wf_spec(),
    {
        FiveInRow { moves }
    }

    /// The board a service coordinate list stands for: each coordinate
    /// tagged as ours exactly when its player id matches `player_id`,
    /// order preserved.
    pub fn from_api_coordinates(resp: Vec<Coordinate>, player_id: &String) -> (r: FiveInRow)
        ensures
            r.moves@.len() == resp@.len(),
            forall|i: int|
                0 <= i < resp@.len() ==> r.moves@[i] == FiveInRowMove::tagged_spec(
                    resp@[i],
                    player_id@,
                ),
    {
        let mut moves: Vec<FiveInRowMove> = Vec::new();
        let mut i: usize = 0;
        while i < resp.len()
            invariant
                0 <= i <= resp@.len(),
                moves@.len() == i,
                forall|k: int|
                    0 <= k < i ==> moves@[k] == FiveInRowMove::tagged_spec(resp@[k], player_id@),
            decreases resp@.len() - i,
        {
            moves.push(FiveInRowMove::from_api_coordinates(player_id, &resp[i]));
            i = i + 1;
        }
        FiveInRow { moves }
    }

    /// An identical board with its own storage.
    pub fn duplicate(&self) -> (r: FiveInRow)
        ensures
            r.moves@ == self.moves@,
    {
        let mut moves: Vec<FiveInRowMove> = Vec::new();
        let mut i: usize = 0;
        while i < self.moves.len()
            invariant
                0 <= i <= self.moves@.len(),
                moves@ == self.moves@.take(i as int),
            decreases self.moves@.len() - i,
        {
            moves.push(self.moves[i]);
            proof {
                assert(self.moves@.take(i + 1) =~= self.moves@.take(i as int).push(
                    self.moves@[i as int],
                ));
            }
            i = i + 1;
        }
        proof {
            assert(self.moves@.take(self.moves@.len() as int) =~= self.moves@);
        }
        FiveInRow { moves }
    }

    /// Whether some move of the board claims the cell `(x, y)`.
    fn cell_occupied(&self, x: i32, y: i32) -> (r: bool)
        ensures
            r == occupied(self.moves@, x as int, y as int),
    {
        let mut i: usize = 0;
        while i < self.moves.len()
            invariant
                0 <= i <= self.moves@.len(),
                forall|k: int|
                    0 <= k < i ==> !(#[trigger] self.moves@[k].x_spec() == x
                        && self.moves@[k].y_spec() == y),
            decreases self.moves@.len() - i,
        {
            if self.moves[i].get_x() == x && self.moves[i].get_y() == y {
                return true;
            }
            i = i + 1;
        }
        false
    }

    /// Plays `new_move`: appends it when its cell is free, and rejects it
    /// with `IncorrectMove` (leaving the board unchanged) when the cell is
    /// already claimed.
    pub fn do_move(&mut self, new_move: FiveInRowMove) -> (r: Result<(), Error>)
        ensures
            occupied(old(self).moves@, new_move.x_spec(), new_move.y_spec()) ==> r == Err::<(),
                Error,
            >(Error::IncorrectMove(new_move)) && final(self).moves@ == old(self).moves@,
            !occupied(old(self).moves@, new_move.x_spec(), new_move.y_spec()) ==> r == Ok::<(),
                Error,
            >(()) && final(self).moves@ == old(self).moves@.push(new_move),
            old(self).wf_spec() ==> final(self).wf_spec(),
    {
        if self.cell_occupied(new_move.get_x(), new_move.get_y()) {
            return Err(Error::IncorrectMove(new_move));
        }
        self.moves.push(new_move);
        proof {
            if old(self).wf_spec() {
                assert forall|i: int, j: int|
                    0 <= i < j < self.moves@.len() implies !(#[trigger] self.moves@[i].same_cell(
                    #[trigger] self.moves@[j],
                )) by {
                    if j < self.moves@.len() - 1 {
                        assert(!old(self).moves@[i].same_cell(old(self).moves@[j]));
                    }
                }
            }
        }
        Ok(())
    }

    /// The moves of the board lying on `direction`, in board order.
    pub fn moves_on(&self, direction: &Direction) -> (r: Vec<FiveInRowMove>)
        ensures
            r@ == self.moves@.filter(on_dir(*direction)),
    {
        let ghost pred = on_dir(*direction);
        let mut out: Vec<FiveInRowMove> = Vec::new();
        let mut i: usize = 0;
        proof {
            reveal(Seq::filter);
        }
        while i < self.moves.len()
            invariant
                0 <= i <= self.moves@.len(),
                pred == on_dir(*direction),
                out@ == self.moves@.take(i as int).filter(pred),
            decreases self.moves@.len() - i,
        {
            let m: FiveInRowMove = self.moves[i];
            proof {
                reveal(Seq::filter);
                assert(self.moves@.take(i + 1).drop_last() =~= self.moves@.take(i as int));
                assert(self.moves@.take(i + 1).last() == self.moves@[i as int]);
            }
            if direction.is_in_direction(m.get_x(), m.get_y()) {
                out.push(m);
            }
            i = i + 1;
        }
        proof {
            assert(self.moves@.take(self.moves@.len() as int) =~= self.moves@);
        }
        out
    }

    /// The candidate moves to consider next, per `candidates_spec`: for
    /// the empty board the single move at the origin; otherwise every
    /// unoccupied cell within line distance 3 of an existing move, tagged
    /// per `myself`.
    pub fn get_possible_moves(&self, myself: bool) -> (r: Vec<FiveInRowMove>)
        ensures
            r@ == candidates_spec(self.moves@, myself),
    {
        let mut vec: Vec<FiveInRowMove> = Vec::new();
        if self.moves.len() == 0 {
            if myself {
                vec.push(FiveInRowMove::Mine(0, 0));
            } else {
                vec.push(FiveInRowMove::Rivals(0, 0));
            }
            proof {
                assert(vec@ =~= candidates_spec(self.moves@, myself));
            }
            return vec;
        }
        let (lo_x, hi_x, lo_y, hi_y) = self.scan_window();
        let mut x: i64 = lo_x;
        while x <= hi_x
            invariant
                lo_x <= x <= hi_x + 1,
                i32::MIN <= lo_x,
                hi_x <= i32::MAX,
                i32::MIN <= lo_y,
                hi_y <= i32::MAX,
                lo_y <= hi_y + 1,
                window_candidates(
                    self.moves@,
                    myself,
                    lo_x as int,
                    hi_x + 1,
                    lo_y as int,
                    hi_y + 1,
                ) == vec@ + window_candidates(
                    self.moves@,
                    myself,
                    x as int,
                    hi_x + 1,
                    lo_y as int,
                    hi_y + 1,
                ),
            decreases hi_x + 1 - x,
        {
            let ghost vec0 = vec@;
            let mut y: i64 = lo_y;
            while y <= hi_y
                invariant
                    lo_y <= y <= hi_y + 1,
                    i32::MIN <= lo_y,
                    hi_y <= i32::MAX,
                    i32::MIN <= x <= i32::MAX,
                    vec0 + column_candidates(self.moves@, myself, x as int, lo_y as int, hi_y + 1)
                        == vec@ + column_candidates(
                        self.moves@,
                        myself,
                        x as int,
                        y as int,
                        hi_y + 1,
                    ),
                decreases hi_y + 1 - y,
            {
                let xc: i32 = x as i32;
                let yc: i32 = y as i32;
                if !self.cell_occupied(xc, yc) {
                    let cand: FiveInRowMove = if myself {
                        FiveInRowMove::Mine(xc, yc)
                    } else {
                        FiveInRowMove::Rivals(xc, yc)
                    };
                    proof {
                        assert(cand == tagged_cell(myself, x as int, y as int));
                    }
                    if cand.get_distance_from_moves(&self.moves) <= 3 {
                        vec.push(cand);
                    }
                }
                y = y + 1;
            }
            x = x + 1;
        }
        proof {
            assert(vec@ =~= candidates_spec(self.moves@, myself));
        }
        vec
    }

    /// The scan window: the bounding box of the occupied cells expanded
    /// by 3, clamped to the coordinate range. Meaningful only for a
    /// nonempty board.
    fn scan_window(&self) -> (r: (i64, i64, i64, i64))
        requires
            self.moves@.len() > 0,
        ensures
            r.0 == max_int(min_x(self.moves@) - 3, i32::MIN as int),
            r.1 == min_int(max_x(self.moves@) + 3, i32::MAX as int),
            r.2 == max_int(min_y(self.moves@) - 3, i32::MIN as int),
            r.3 == min_int(max_y(self.moves@) + 3, i32::MAX as int),
    {
        let mut lo_x: i64 = i64::MAX;
        let mut hi_x: i64 = i64::MIN;
        let mut lo_y: i64 = i64::MAX;
        let mut hi_y: i64 = i64::MIN;
        let mut i: usize = 0;
        while i < self.moves.len()
            invariant
                0 <= i <= self.moves@.len(),
                i > 0 ==> i32::MIN <= lo_x <= i32::MAX,
                i > 0 ==> i32::MIN <= hi_x <= i32::MAX,
                i > 0 ==> i32::MIN <= lo_y <= i32::MAX,
                i > 0 ==> i32::MIN <= hi_y <= i32::MAX,
                i > 0 ==> lo_x == min_x(self.moves@.take(i as int)),
                i > 0 ==> hi_x == max_x(self.moves@.take(i as int)),
                i > 0 ==> lo_y == min_y(self.moves@.take(i as int)),
                i > 0 ==> hi_y == max_y(self.moves@.take(i as int)),
            decreases self.moves@.len() - i,
        {
            let m: FiveInRowMove = self.moves[i];
            let mx: i64 = m.get_x() as i64;
            let my: i64 = m.get_y() as i64;
            proof {
                assert(self.moves@.take(i + 1).drop_last() =~= self.moves@.take(i as int));
                assert(self.moves@.take(i + 1).last() == self.moves@[i as int]);
            }
            if i == 0 {
                lo_x = mx;
                hi_x = mx;
                lo_y = my;
                hi_y = my;
            } else {
                if mx < lo_x {
                    lo_x = mx;
                }
                if mx > hi_x {
                    hi_x = mx;
                }
                if my < lo_y {
                    lo_y = my;
                }
                if my > hi_y {
                    hi_y = my;
                }
            }
            i = i + 1;
        }
        proof {
            assert(self.moves@.take(self.moves@.len() as int) =~= self.moves@);
        }
        let lo_x_c: i64 = if lo_x - 3 < i32::MIN as i64 {
            i32::MIN as i64
        } else {
            lo_x - 3
        };
        let hi_x_c: i64 = if hi_x + 3 > i32::MAX as i64 {
            i32::MAX as i64
        } else {
            hi_x + 3
        };
        let lo_y_c: i64 = if lo_y - 3 < i32::MIN as i64 {
            i32::MIN as i64
        } else {
            lo_y - 3
        };
        let hi_y_c: i64 = if hi_y + 3 > i32::MAX as i64 {
            i32::MAX as i64
        } else {
            hi_y + 3
        };
        (lo_x_c, hi_x_c, lo_y_c, hi_y_c)
    }
}


/// The first index of `m` in `s` under structural equality (meaningful
/// only when `s` contains `m`).
pub open spec fn first_index_of(s: Seq<FiveInRowMove>, m: FiveInRowMove) -> int
    decreases s.len(),
{
    if s.len() == 0 {
        0
    } else if s[0] == m {
        0
    } else {
        1 + first_index_of(s.drop_first(), m)
    }
}

/// The last index of the run of `mine`-tagged moves that starts at `j`
/// in the sorted line `s`.
pub open spec fn run_right(s: Seq<FiveInRowMove>, mine: bool, j: int) -> int
    decreases s.len() - j,
{
    if j + 1 < s.len() && s[j + 1].mine_spec() == mine {
        run_right(s, mine, j + 1)
    } else {
        j
    }
}

/// The first index of the run of `mine`-tagged moves that ends at `j`
/// in the sorted line `s`.
pub open spec fn run_left(s: Seq<FiveInRowMove>, mine: bool, j: int) -> int
    decreases j,
{
    if j >= 1 && s[j - 1].mine_spec() == mine {
        run_left(s, mine, j - 1)
    } else {
        j
    }
}

/// The closed-end penalty: a run closed off `gap` cells away is worth
/// half as much for a tight close, four fifths or ninety-nine hundredths
/// for looser ones, and is unaffected beyond three cells.
pub open spec fn gap_penalty(sc: Score, gap: int) -> Score {
    if gap <= 1 {
        sc.times_frac_spec(1, 2)
    } else if gap <= 2 {
        sc.times_frac_spec(4, 5)
    } else if gap <= 3 {
        sc.times_frac_spec(99, 100)
    } else {
        sc
    }
}

/// A finite score small enough to be a single line's contribution.
pub open spec fn line_bounded(sc: Score) -> bool {
    sc matches Score::Numeric(v) ==> -LINE_BOUND <= v <= LINE_BOUND
}

/// The partial score of the line `line` as seen from its member move
/// `mv`: the run of same-tagged moves around `mv` in the sorted line is
/// graded by its length and span, zeroed when it is closed off on both
/// sides within five cells, penalised for each closed end, and weighted
/// by `-5/2` when the run is the rival's.
pub open spec fn line_score_spec(mv: FiveInRowMove, line: Seq<FiveInRowMove>) -> Score {
    let ss = sort_by_line(line);
    let p = first_index_of(ss, mv);
    let mine = mv.mine_spec();
    let hi = run_right(ss, mine, p);
    let lo = run_left(ss, mine, p);
    let n = hi - lo + 1;
    let span = abs_int(ss[lo].dist_spec(ss[hi])) + 1;
    if lo > 0 && hi + 1 < ss.len() && abs_int(ss[lo - 1].dist_spec(ss[hi + 1])) <= 5 {
        Score::Numeric(0)
    } else if n >= 5 && n == span {
        if mine {
            Score::Win
        } else {
            Score::Loss
        }
    } else {
        let base = if n >= 5 {
            Score::Numeric(div_trunc(1000 * SCALE, span) as i128)
        } else if n >= 4 {
            Score::Numeric(div_trunc(220 * SCALE, span) as i128)
        } else if n >= 3 {
            Score::Numeric(div_trunc(50 * SCALE, span) as i128)
        } else if n >= 2 {
            Score::Numeric(div_trunc(4 * SCALE, span) as i128)
        } else {
            Score::Numeric(div_trunc(n * SCALE, span) as i128)
        };
        let with_l = if lo > 0 {
            gap_penalty(base, abs_int(ss[lo].dist_spec(ss[lo - 1])))
        } else {
            base
        };
        let with_r = if hi + 1 < ss.len() {
            gap_penalty(with_l, abs_int(ss[hi].dist_spec(ss[hi + 1])))
        } else {
            with_l
        };
        if mine {
            with_r
        } else {
            with_r.times_frac_spec(-5, 2)
        }
    }
}

impl FiveInRow {
    /// The partial score of one line, seen from its member move `mv`.
    pub fn score_from_row(mv: &FiveInRowMove, vec: &Vec<FiveInRowMove>) -> (r: Score)
        requires
            vec@.contains(*mv),
        ensures
            r == line_score_spec(*mv, vec@),
            line_bounded(r),
    {
        let sorted: Vec<FiveInRowMove> = sort_moves(vec);
        let slen: usize = sorted.len();
        let ghost ss = sorted@;
        proof {
            lemma_sort_by_line_ensures(vec@);
            broadcast use vstd::seq_lib::group_to_multiset_ensures;

            assert(vec@.to_multiset().contains(*mv));
            assert(ss.contains(*mv));
        }
        let mut pos: usize = 0;
        while !(sorted[pos] == *mv)
            invariant
                0 <= pos < ss.len(),
                ss == sorted@,
                slen == ss.len(),
                forall|k: int| 0 <= k < pos ==> ss[k] != *mv,
                exists|j: int| pos <= j < ss.len() && ss[j] == *mv,
            decreases ss.len() - pos,
        {
            pos = pos + 1;
            proof {
                let j = choose|j: int| pos - 1 <= j < ss.len() && ss[j] == *mv;
                assert(pos <= j < ss.len() && ss[j] == *mv);
            }
        }
        proof {
            lemma_first_index_of_at(ss, *mv, pos as int);
        }
        let mine: bool = mv.is_mine();
        let mut hi: usize = pos;
        while hi + 1 < slen && sorted[hi + 1].is_mine() == mine
            invariant
                pos <= hi < ss.len(),
                ss == sorted@,
                slen == ss.len(),
                run_right(ss, mine, pos as int) == run_right(ss, mine, hi as int),
            decreases ss.len() - hi,
        {
            hi = hi + 1;
        }
        let mut lo: usize = pos;
        while lo >= 1 && sorted[lo - 1].is_mine() == mine
            invariant
                0 <= lo <= pos < ss.len(),
                ss == sorted@,
                slen == ss.len(),
                run_left(ss, mine, pos as int) == run_left(ss, mine, lo as int),
            decreases lo,
        {
            lo = lo - 1;
        }
        let n: usize = hi - lo + 1;
        let span: i64 = abs_i64(sorted[lo].get_distance(&sorted[hi])) + 1;
        if lo > 0 && hi + 1 < sorted.len() {
            let enclosure: i64 = abs_i64(sorted[lo - 1].get_distance(&sorted[hi + 1]));
            if enclosure <= 5 {
                return Score::Numeric(0);
            }
        }
        if n >= 5 && (n as u64) == (span as u64) {
            return if mine {
                Score::Win
            } else {
                Score::Loss
            };
        }
        let base: Score = if n >= 5 {
            Score::from_frac(1000, span)
        } else if n >= 4 {
            Score::from_frac(220, span)
        } else if n >= 3 {
            Score::from_frac(50, span)
        } else if n >= 2 {
            Score::from_frac(4, span)
        } else {
            Score::from_frac(1, span)
        };
        let with_l: Score = if lo > 0 {
            let l_gap: i64 = abs_i64(sorted[lo].get_distance(&sorted[lo - 1]));
            apply_gap_penalty(base, l_gap)
        } else {
            base
        };
        let with_r: Score = if hi + 1 < sorted.len() {
            let r_gap: i64 = abs_i64(sorted[hi].get_distance(&sorted[hi + 1]));
            apply_gap_penalty(with_l, r_gap)
        } else {
            with_l
        };
        if mine {
            with_r
        } else {
            with_r.times_frac(-5, 2)
        }
    }
}

/// Applies the closed-end penalty for a closing piece `gap` cells away.
fn apply_gap_penalty(sc: Score, gap: i64) -> (r: Score)
    requires
        sc matches Score::Numeric(v) ==> 0 <= v <= LINE_BOUND,
    ensures
        r == gap_penalty(sc, gap as int),
        (sc is Numeric && 0 <= sc->0) ==> (r is Numeric && 0 <= r->0 <= sc->0),
{
    proof {
        if let Score::Numeric(v) = sc {
            lemma_scaled_div_bounds(v as int, 1, 2);
            lemma_scaled_div_bounds(v as int, 4, 5);
            lemma_scaled_div_bounds(v as int, 99, 100);
        }
    }
    if gap <= 1 {
        sc.times_frac(1, 2)
    } else if gap <= 2 {
        sc.times_frac(4, 5)
    } else if gap <= 3 {
        sc.times_frac(99, 100)
    } else {
        sc
    }
}

/// For `v >= 0` and `0 <= num <= den`, multiplying by `num / den` with
/// truncation keeps the value within `[0, v]`.
proof fn lemma_scaled_div_bounds(v: int, num: int, den: int)
    requires
        v >= 0,
        0 <= num <= den,
        den >= 1,
    ensures
        0 <= div_trunc(v * num, den) <= v,
{
    vstd::arithmetic::mul::lemma_mul_inequality(num, den, v);
    vstd::arithmetic::mul::lemma_mul_is_commutative(v, num);
    vstd::arithmetic::mul::lemma_mul_is_commutative(v, den);
    vstd::arithmetic::mul::lemma_mul_nonnegative(v, num);
    vstd::arithmetic::div_mod::lemma_div_is_ordered(v * num, v * den, den);
    vstd::arithmetic::div_mod::lemma_div_multiples_vanish(v, den);
    vstd::arithmetic::div_mod::lemma_div_pos_is_pos(v * num, den);
}

proof fn lemma_first_index_of_at(s: Seq<FiveInRowMove>, m: FiveInRowMove, pos: int)
    requires
        0 <= pos < s.len(),
        s[pos] == m,
        forall|k: int| 0 <= k < pos ==> s[k] != m,
    ensures
        first_index_of(s, m) == pos,
    decreases pos,
{
    if pos > 0 {
        assert(s[0] != m);
        lemma_first_index_of_at(s.drop_first(), m, pos - 1);
    }
}


/// The membership test of a direction, as a predicate on moves.
pub open spec fn on_dir(d: Direction) -> spec_fn(FiveInRowMove) -> bool {
    |m: FiveInRowMove| d.on_spec(m.x_spec(), m.y_spec())
}

/// The partial score `mv` contributes along direction `d` of a board
/// holding the moves `s`.
pub open spec fn move_dir_score(s: Seq<FiveInRowMove>, mv: FiveInRowMove, d: Direction) -> Score {
    line_score_spec(mv, s.filter(on_dir(d)))
}

/// The sum of the partial scores of `mv` along its first `k` directions.
pub open spec fn dirs_fold(s: Seq<FiveInRowMove>, mv: FiveInRowMove, k: int) -> Score
    decreases k,
{
    if k <= 0 {
        Score::Numeric(0)
    } else {
        dirs_fold(s, mv, k - 1).plus_spec(
            move_dir_score(s, mv, Direction::list_from_spec(mv)[k - 1]),
        )
    }
}

/// The sum of the partial scores of `mv` along its four directions.
pub open spec fn move_score_spec(s: Seq<FiveInRowMove>, mv: FiveInRowMove) -> Score {
    dirs_fold(s, mv, 4)
}

/// The sum of the contributions of the first `n` moves of the board.
pub open spec fn board_score_upto(s: Seq<FiveInRowMove>, n: int) -> Score
    decreases n,
{
    if n <= 0 {
        Score::Numeric(0)
    } else {
        board_score_upto(s, n - 1).plus_spec(move_score_spec(s, s[n - 1]))
    }
}

/// The score of a board: the sum, in the score algebra, over every move
/// and each of its four directions, of the partial line scores. Positive
/// numeric values favour the `Mine` side; `Win` and `Loss` absorb.
pub open spec fn board_score_spec(s: Seq<FiveInRowMove>) -> Score {
    board_score_upto(s, s.len() as int)
}

/// A finite score within the given magnitude.
pub open spec fn score_mag_within(sc: Score, bound: int) -> bool {
    sc matches Score::Numeric(v) ==> -bound <= v <= bound
}

impl FiveInRow {
    /// The heuristic score of the position: the sum over all moves and
    /// their four directions of the per-line partial scores.
    pub fn get_score(&self) -> (r: Score)
        ensures
            r == board_score_spec(self.moves@),
            score_mag_within(r, 4 * (LINE_BOUND as int) * self.moves@.len()),
    {
        let n: usize = self.moves.len();
        let mut res: Score = Score::Numeric(0);
        let mut i: usize = 0;
        while i < n
            invariant
                0 <= i <= n,
                n == self.moves@.len(),
                res == board_score_upto(self.moves@, i as int),
                score_mag_within(res, 4 * (LINE_BOUND as int) * i),
            decreases n - i,
        {
            let m: FiveInRowMove = self.moves[i];
            let dirs: [Direction; 4] = Direction::create_list_from_move(&m);
            let mut inner: Score = Score::Numeric(0);
            let mut j: usize = 0;
            while j < 4
                invariant
                    0 <= j <= 4,
                    0 <= i < n,
                    n == self.moves@.len(),
                    m == self.moves@[i as int],
                    dirs@ == Direction::list_from_spec(m),
                    forall|k: int|
                        0 <= k < 4 ==> #[trigger] dirs@[k].on_spec(m.x_spec(), m.y_spec()),
                    inner == dirs_fold(self.moves@, m, j as int),
                    score_mag_within(inner, (LINE_BOUND as int) * j),
                decreases 4 - j,
            {
                let line: Vec<FiveInRowMove> = self.moves_on(&dirs[j]);
                proof {
                    assert(on_dir(dirs@[j as int])(self.moves@[i as int]));
                    self.moves@.lemma_filter_contains(on_dir(dirs@[j as int]), i as int);
                }
                let sc: Score = FiveInRow::score_from_row(&m, &line);
                proof {
                    assert((LINE_BOUND as int) * (j + 1) == (LINE_BOUND as int) * (j as int)
                        + (LINE_BOUND as int)) by (nonlinear_arith);
                    assert((LINE_BOUND as int) * (j as int) <= (LINE_BOUND as int) * 4) by (nonlinear_arith)
                        requires
                            0 <= j <= 4,
                    ;
                }
                inner = inner.plus(sc);
                j = j + 1;
            }
            proof {
                let li = 4 * (LINE_BOUND as int);
                assert(li * (i + 1) == li * (i as int) + li) by (nonlinear_arith);
                assert(li * (i as int) <= li * (usize::MAX as int)) by (nonlinear_arith)
                    requires
                        0 <= i <= usize::MAX as int,
                        0 <= li,
                ;
            }
            res = res.plus(inner);
            i = i + 1;
        }
        res
    }
}


/// A consecutive run: moves lying on `d` and advancing by exactly one
/// cell along it, step by step.
pub open spec fn consecutive_on(ms: Seq<FiveInRowMove>, d: Direction) -> bool {
    &&& forall|i: int|
        0 <= i < ms.len() ==> d.on_spec((#[trigger] ms[i]).x_spec(), ms[i].y_spec())
    &&& forall|i: int| 0 <= i < ms.len() - 1 ==> (#[trigger] ms[i + 1]).dist_spec(ms[i]) == 1
}

/// A line whose adjacent moves strictly advance sorts to itself.
proof fn lemma_sort_identity(s: Seq<FiveInRowMove>)
    requires
        forall|i: int| 0 <= i < s.len() - 1 ==> (#[trigger] s[i + 1]).dist_spec(s[i]) > 0,
    ensures
        sort_by_line(s) =~= s,
    decreases s.len(),
{
    if s.len() > 0 {
        assert(forall|i: int|
            0 <= i < s.drop_last().len() - 1 ==> (#[trigger] s.drop_last()[i + 1]).dist_spec(
                s.drop_last()[i],
            ) > 0) by {
            assert forall|i: int| 0 <= i < s.drop_last().len() - 1 implies (#[trigger] s.drop_last()[
                i + 1
            ]).dist_spec(s.drop_last()[i]) > 0 by {
                assert(s[i + 1].dist_spec(s[i]) > 0);
            }
        }
        lemma_sort_identity(s.drop_last());
        if s.len() >= 2 {
            assert(s[(s.len() - 2) + 1].dist_spec(s[s.len() - 2]) > 0);
            assert(sort_by_line(s.drop_last()).last() == s[s.len() - 2]);
            crate::mv::lemma_dist_antisym(s.last(), s[s.len() - 2]);
        }
        assert(sort_by_line(s) =~= s.drop_last().push(s.last()));
        assert(s.drop_last().push(s.last()) =~= s);
    }
}

/// A run of same-tagged moves extends to the end of the line.
proof fn lemma_run_right_all(s: Seq<FiveInRowMove>, mine: bool, j: int)
    requires
        0 <= j < s.len(),
        forall|i: int| j <= i < s.len() ==> (#[trigger] s[i]).mine_spec() == mine,
    ensures
        run_right(s, mine, j) == s.len() - 1,
    decreases s.len() - j,
{
    if j + 1 < s.len() {
        lemma_run_right_all(s, mine, j + 1);
    }
}

/// Law: a fully enclosed run is worthless. Whenever the run around `mv`
/// in the sorted line has a closing piece on each side and the two
/// closers are at most five cells apart, the line scores `Numeric(0)`.
pub proof fn lemma_enclosed_run_scores_zero(mv: FiveInRowMove, line: Seq<FiveInRowMove>)
    requires
        ({
            let ss = sort_by_line(line);
            let p = first_index_of(ss, mv);
            let hi = run_right(ss, mv.mine_spec(), p);
            let lo = run_left(ss, mv.mine_spec(), p);
            &&& lo > 0
            &&& hi + 1 < ss.len()
            &&& abs_int(ss[lo - 1].dist_spec(ss[hi + 1])) <= 5
        }),
    ensures
        line_score_spec(mv, line) == Score::Numeric(0),
{
}

/// Law: runs of our stones grow strictly more valuable with their
/// length, and five in a row is a win. A lone stone scores 1.0, runs of
/// two, three and four score 2.0, 50/3 and 55.0, and a run of five is
/// `Win`; each step is strictly above the one before in the score order.
pub proof fn lemma_run_scores_increase(d: Direction, ms: Seq<FiveInRowMove>)
    requires
        1 <= ms.len() <= 5,
        consecutive_on(ms, d),
        forall|i: int| 0 <= i < ms.len() ==> (#[trigger] ms[i]).mine_spec(),
    ensures
        ms.len() == 1 ==> line_score_spec(ms[0], ms) == Score::Numeric(100_000_000),
        ms.len() == 2 ==> line_score_spec(ms[0], ms) == Score::Numeric(200_000_000),
        ms.len() == 3 ==> line_score_spec(ms[0], ms) == Score::Numeric(1_666_666_666),
        ms.len() == 4 ==> line_score_spec(ms[0], ms) == Score::Numeric(5_500_000_000),
        ms.len() == 5 ==> line_score_spec(ms[0], ms) == Score::Win,
        Score::Numeric(100_000_000).lt_spec(Score::Numeric(200_000_000)),
        Score::Numeric(200_000_000).lt_spec(Score::Numeric(1_666_666_666)),
        Score::Numeric(1_666_666_666).lt_spec(Score::Numeric(5_500_000_000)),
        Score::Numeric(5_500_000_000).lt_spec(Score::Win),
{
    lemma_run_shape(d, ms, true);
}

/// Law: the rival's five in a row is a loss.
pub proof fn lemma_rival_run_of_five_scores_loss(d: Direction, ms: Seq<FiveInRowMove>)
    requires
        ms.len() == 5,
        consecutive_on(ms, d),
        forall|i: int| 0 <= i < ms.len() ==> !(#[trigger] ms[i]).mine_spec(),
    ensures
        line_score_spec(ms[0], ms) == Score::Loss,
{
    lemma_run_shape(d, ms, false);
}

/// The shape of an unclosed consecutive run seen from its first stone:
/// the run is the whole line, its span equals its length, and there are
/// no closing pieces.
proof fn lemma_run_shape(d: Direction, ms: Seq<FiveInRowMove>, mine: bool)
    requires
        1 <= ms.len() <= 5,
        consecutive_on(ms, d),
        forall|i: int| 0 <= i < ms.len() ==> (#[trigger] ms[i]).mine_spec() == mine,
    ensures
        mine && ms.len() == 1 ==> line_score_spec(ms[0], ms) == Score::Numeric(
            crate::score::div_trunc(1 * SCALE as int, 1) as i128,
        ),
        mine && ms.len() == 2 ==> line_score_spec(ms[0], ms) == Score::Numeric(
            crate::score::div_trunc(4 * SCALE as int, 2) as i128,
        ),
        mine && ms.len() == 3 ==> line_score_spec(ms[0], ms) == Score::Numeric(
            crate::score::div_trunc(50 * SCALE as int, 3) as i128,
        ),
        mine && ms.len() == 4 ==> line_score_spec(ms[0], ms) == Score::Numeric(
            crate::score::div_trunc(220 * SCALE as int, 4) as i128,
        ),
        ms.len() == 5 ==> line_score_spec(ms[0], ms) == (if mine {
            Score::Win
        } else {
            Score::Loss
        }),
        !mine && ms.len() < 5 ==> line_score_spec(ms[0], ms) == Score::Numeric(
            crate::score::div_trunc(
                crate::score::div_trunc(
                    (if ms.len() == 2 {
                        4int
                    } else if ms.len() == 3 {
                        50int
                    } else if ms.len() == 4 {
                        220int
                    } else {
                        1int
                    }) * SCALE as int,
                    ms.len() as int,
                ) * -5,
                2,
            ) as i128,
        ),
{
    let n = ms.len() as int;
    lemma_sort_identity(ms);
    let ss = sort_by_line(ms);
    assert(ss =~= ms);
    assert(first_index_of(ss, ms[0]) == 0);
    lemma_run_right_all(ss, mine, 0);
    assert(run_left(ss, mine, 0) == 0);
    if n >= 2 {
        assert(ms[0int + 1].dist_spec(ms[0int]) == 1);
        crate::direction::lemma_line_order(d, ms[1], ms[0]);
    }
    if n >= 3 {
        assert(ms[1int + 1].dist_spec(ms[1int]) == 1);
        crate::direction::lemma_line_order(d, ms[2], ms[1]);
    }
    if n >= 4 {
        assert(ms[2int + 1].dist_spec(ms[2int]) == 1);
        crate::direction::lemma_line_order(d, ms[3], ms[2]);
    }
    if n >= 5 {
        assert(ms[3int + 1].dist_spec(ms[3int]) == 1);
        crate::direction::lemma_line_order(d, ms[4], ms[3]);
    }
    crate::direction::lemma_line_order(d, ms[0], ms[n - 1]);
    assert(ms[0].dist_spec(ms[n - 1]) == -(n - 1));
    assert(abs_int(ms[0].dist_spec(ms[n - 1])) + 1 == n);
    let p = first_index_of(ss, ms[0]);
    assert(p == 0);
    let hi = run_right(ss, ms[0].mine_spec(), p);
    assert(hi == n - 1);
    let lo = run_left(ss, ms[0].mine_spec(), p);
    assert(lo == 0);
    let span = abs_int(ss[lo].dist_spec(ss[hi])) + 1;
    assert(span == n);
}


/// Law: an internal rival piece devalues a run. A line of five
/// consecutive cells holding our stones except a rival's on the fourth,
/// seen from the first stone, scores exactly half of what the plain run
/// of three scores, and so strictly less.
pub proof fn lemma_internal_rival_piece_devalues(d: Direction, ms: Seq<FiveInRowMove>)
    requires
        ms.len() == 5,
        consecutive_on(ms, d),
        ms[0].mine_spec(),
        ms[1].mine_spec(),
        ms[2].mine_spec(),
        !ms[3].mine_spec(),
        ms[4].mine_spec(),
    ensures
        line_score_spec(ms[0], ms) == Score::Numeric(833_333_333),
        line_score_spec(ms[0], ms).lt_spec(Score::Numeric(1_666_666_666)),
{
    lemma_sort_identity(ms);
    let ss = sort_by_line(ms);
    assert(ss =~= ms);
    assert(first_index_of(ss, ms[0]) == 0);
    assert(run_right(ss, true, 2) == 2);
    assert(run_right(ss, true, 1) == 2);
    assert(run_right(ss, true, 0) == 2);
    assert(run_left(ss, true, 0) == 0);
    assert(ms[0int + 1].dist_spec(ms[0int]) == 1);
    crate::direction::lemma_line_order(d, ms[1], ms[0]);
    assert(ms[1int + 1].dist_spec(ms[1int]) == 1);
    crate::direction::lemma_line_order(d, ms[2], ms[1]);
    assert(ms[2int + 1].dist_spec(ms[2int]) == 1);
    crate::direction::lemma_line_order(d, ms[3], ms[2]);
    crate::direction::lemma_line_order(d, ms[0], ms[2]);
    crate::direction::lemma_line_order(d, ms[2], ms[3]);
    assert(abs_int(ss[0].dist_spec(ss[2])) + 1 == 3);
    assert(abs_int(ss[2].dist_spec(ss[3])) == 1);
}


/// Law: sorting the moves of one line orders them by their integer
/// position along it. The sorted line is a rearrangement of the input in
/// which the positions never decrease.
pub proof fn lemma_sorted_line_by_position(d: Direction, line: Seq<FiveInRowMove>)
    requires
        forall|i: int|
            0 <= i < line.len() ==> d.on_spec(
                (#[trigger] line[i]).x_spec(),
                line[i].y_spec(),
            ),
    ensures
        sort_by_line(line).to_multiset() =~= line.to_multiset(),
        forall|i: int, j: int|
            0 <= i <= j < sort_by_line(line).len() ==> crate::direction::line_pos(
                #[trigger] sort_by_line(line)[i],
                d,
            ) <= crate::direction::line_pos(#[trigger] sort_by_line(line)[j], d),
{
    broadcast use vstd::seq_lib::group_to_multiset_ensures;

    crate::mv::lemma_sort_by_line_ensures(line);
    let ss = sort_by_line(line);
    assert forall|i: int| 0 <= i < ss.len() implies d.on_spec(
        (#[trigger] ss[i]).x_spec(),
        ss[i].y_spec(),
    ) by {
        assert(ss.contains(ss[i]));
        assert(ss.to_multiset().count(ss[i]) > 0);
        assert(line.to_multiset().count(ss[i]) > 0);
        assert(line.contains(ss[i]));
        let j = choose|j: int| 0 <= j < line.len() && line[j] == ss[i];
        assert(d.on_spec(line[j].x_spec(), line[j].y_spec()));
    }
    assert forall|i: int, j: int|
        0 <= i <= j < ss.len() implies crate::direction::line_pos(#[trigger] ss[i], d)
        <= crate::direction::line_pos(#[trigger] ss[j], d) by {
        lemma_positions_monotone(d, ss, i, j);
    }
}

/// Along a line whose adjacent moves are in distance order, positions
/// never decrease over any span.
proof fn lemma_positions_monotone(d: Direction, ss: Seq<FiveInRowMove>, i: int, j: int)
    requires
        crate::mv::line_adjacent_sorted(ss),
        forall|k: int|
            0 <= k < ss.len() ==> d.on_spec((#[trigger] ss[k]).x_spec(), ss[k].y_spec()),
        0 <= i <= j < ss.len(),
    ensures
        crate::direction::line_pos(ss[i], d) <= crate::direction::line_pos(ss[j], d),
    decreases j - i,
{
    if i < j {
        lemma_positions_monotone(d, ss, i, j - 1);
        assert(ss[(j - 1) + 1].dist_spec(ss[j - 1]) >= 0);
        crate::direction::lemma_line_order(d, ss[j], ss[j - 1]);
    }
}

} // verus!
