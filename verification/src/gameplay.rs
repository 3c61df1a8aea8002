//! The search driver: a bounded-beam alternating minimax over the board,
//! with incremental reuse of the suggestion tree across real moves.

use vstd::prelude::*;
use crate::board::{
    board_score_spec, candidates_spec, cell_kept, column_candidates, occupied, window_candidates,
    FiveInRow, LINE_BOUND,
};
use crate::error::Error;
use crate::mv::{FiveInRowMove, GameMove};
use crate::score::Score;
use crate::suggestion::{first_root_match, forest_graft_ok, forest_grafted, lemma_first_root_match_at, lemma_first_root_match_none, trees_like, Suggestion};

verus! {

use core::cmp::Ordering;

/// Playing the moves of `pfx` on `s` in order: the extended board, or the
/// first move that claims an occupied cell.
pub open spec fn apply_moves(s: Seq<FiveInRowMove>, pfx: Seq<FiveInRowMove>) -> Result<
    Seq<FiveInRowMove>,
    FiveInRowMove,
>
    decreases pfx.len(),
{
    if pfx.len() == 0 {
        Ok(s)
    } else if occupied(s, pfx[0].x_spec(), pfx[0].y_spec()) {
        Err(pfx[0])
    } else {
        apply_moves(s.push(pfx[0]), pfx.drop_first())
    }
}

/// The move and shallow score of each suggestion.
pub open spec fn pairs_of(v: Seq<Suggestion>) -> Seq<(FiveInRowMove, Score)> {
    v.map(|i: int, x: Suggestion| (x.mv, x.score))
}

/// Every suggestion is a fresh leaf.
pub open spec fn all_leaves(v: Seq<Suggestion>) -> bool {
    forall|i: int|
        0 <= i < v.len() ==> (#[trigger] v[i].depth) == 0 && v[i].suggestions@.len() == 0
}

/// One scored candidate per candidate move of the position `s2`: the
/// candidate itself, and the score of the board with it played.
pub open spec fn level_pairs(s2: Seq<FiveInRowMove>, myself: bool) -> Seq<(FiveInRowMove, Score)> {
    let c = candidates_spec(s2, myself);
    Seq::new(c.len(), |i: int| (c[i], board_score_spec(s2.push(c[i]))))
}

pub open spec fn min_score(a: Score, b: Score) -> Score {
    if a.lt_spec(b) {
        a
    } else {
        b
    }
}

pub open spec fn max_score(a: Score, b: Score) -> Score {
    if a.gt_spec(b) {
        a
    } else {
        b
    }
}

/// The fold of the optimiser's worst and best score over the first `k`
/// scored candidates: for us, the pair starts at `(Win, Loss)` and folds
/// with `(min, max)`; for the opponent the roles are swapped.
pub open spec fn fold_minmax(ps: Seq<(FiveInRowMove, Score)>, k: int, myself: bool) -> (
    Score,
    Score,
)
    decreases k,
{
    if k <= 0 {
        if myself {
            (Score::Win, Score::Loss)
        } else {
            (Score::Loss, Score::Win)
        }
    } else {
        let prev = fold_minmax(ps, k - 1, myself);
        let sc = ps[k - 1].1;
        if myself {
            (min_score(prev.0, sc), max_score(prev.1, sc))
        } else {
            (max_score(prev.0, sc), min_score(prev.1, sc))
        }
    }
}

/// The beam threshold: the best score, pushed towards the worst by half
/// of the distance between them.
pub open spec fn keep_limit(mn: Score, mx: Score, myself: bool) -> Score {
    let beam = mn.minus_spec(mx).abs_spec().times_frac_spec(1, 2);
    if myself {
        mx.minus_spec(beam)
    } else {
        mx.plus_spec(beam)
    }
}

/// Whether a score survives the beam threshold.
pub open spec fn keep_pair(sc: Score, limit: Score, myself: bool) -> bool {
    if myself {
        !sc.lt_spec(limit)
    } else {
        !sc.gt_spec(limit)
    }
}

/// `a` strictly precedes `b` in the optimiser's order: a strictly better
/// shallow score for us, a strictly worse one for the opponent.
pub open spec fn pair_before(a: (FiveInRowMove, Score), b: (FiveInRowMove, Score), myself: bool) -> bool {
    if myself {
        a.1.gt_spec(b.1)
    } else {
        a.1.lt_spec(b.1)
    }
}

/// Stable insertion of `p` into `s` under the optimiser's order.
pub open spec fn insert_pair(
    p: (FiveInRowMove, Score),
    s: Seq<(FiveInRowMove, Score)>,
    myself: bool,
) -> Seq<(FiveInRowMove, Score)>
    decreases s.len(),
{
    if s.len() == 0 {
        seq![p]
    } else if pair_before(p, s.last(), myself) {
        insert_pair(p, s.drop_last(), myself).push(s.last())
    } else {
        s.push(p)
    }
}

/// The stable insertion sort of scored candidates under the optimiser's
/// order: best first for us, worst first for the opponent.
pub open spec fn sort_pairs(s: Seq<(FiveInRowMove, Score)>, myself: bool) -> Seq<
    (FiveInRowMove, Score),
>
    decreases s.len(),
{
    if s.len() == 0 {
        s
    } else {
        insert_pair(s.last(), sort_pairs(s.drop_last(), myself), myself)
    }
}

/// The beam-threshold predicate on scored candidates.
pub open spec fn keep_pred(limit: Score, myself: bool) -> spec_fn((FiveInRowMove, Score)) -> bool {
    |p: (FiveInRowMove, Score)| keep_pair(p.1, limit, myself)
}

/// The scored candidates a single search level hands back for the
/// position `s2`: all candidates scored, sorted in the optimiser's order,
/// thinned to those within the beam threshold, and truncated to `count`.
pub open spec fn level_result_pairs(s2: Seq<FiveInRowMove>, myself: bool, count: int) -> Seq<
    (FiveInRowMove, Score),
>
    recommends
        count >= 0,
{
    let ps = level_pairs(s2, myself);
    let mm = fold_minmax(ps, ps.len() as int, myself);
    let limit = keep_limit(mm.0, mm.1, myself);
    let kept = sort_pairs(ps, myself).filter(keep_pred(limit, myself));
    if kept.len() > count {
        kept.take(count)
    } else {
        kept
    }
}

/// Every candidate of a position claims a free cell of it.
pub proof fn lemma_candidates_unoccupied(s: Seq<FiveInRowMove>, myself: bool)
    ensures
        forall|i: int|
            0 <= i < candidates_spec(s, myself).len() ==> !occupied(
                s,
                (#[trigger] candidates_spec(s, myself)[i]).x_spec(),
                candidates_spec(s, myself)[i].y_spec(),
            ),
{
    if s.len() == 0 {
    } else {
        let c = candidates_spec(s, myself);
        lemma_bbox_range(s);
        assert forall|i: int| 0 <= i < c.len() implies !occupied(
            s,
            (#[trigger] c[i]).x_spec(),
            c[i].y_spec(),
        ) by {
            lemma_window_unoccupied(
                s,
                myself,
                crate::board::max_int(crate::board::min_x(s) - 3, i32::MIN as int),
                crate::mv::min_int(crate::board::max_x(s) + 3, i32::MAX as int) + 1,
                crate::board::max_int(crate::board::min_y(s) - 3, i32::MIN as int),
                crate::mv::min_int(crate::board::max_y(s) + 3, i32::MAX as int) + 1,
                i,
            );
        }
    }
}

proof fn lemma_column_unoccupied(
    s: Seq<FiveInRowMove>,
    myself: bool,
    x: int,
    y0: int,
    y_end: int,
    i: int,
)
    requires
        0 <= i < column_candidates(s, myself, x, y0, y_end).len(),
        i32::MIN <= x <= i32::MAX,
        i32::MIN <= y0,
        y_end <= i32::MAX as int + 1,
    ensures
        !occupied(
            s,
            column_candidates(s, myself, x, y0, y_end)[i].x_spec(),
            column_candidates(s, myself, x, y0, y_end)[i].y_spec(),
        ),
    decreases y_end - y0,
{
    if y0 < y_end {
        if cell_kept(s, myself, x, y0) && i == 0 {
            let m = crate::board::tagged_cell(myself, x, y0);
            assert(m.x_spec() == x && m.y_spec() == y0);
            assert(!occupied(s, x, y0));
        } else if cell_kept(s, myself, x, y0) {
            lemma_column_unoccupied(s, myself, x, y0 + 1, y_end, i - 1);
        } else {
            lemma_column_unoccupied(s, myself, x, y0 + 1, y_end, i);
        }
    }
}

/// The bounding box of a nonempty board lies within the coordinate range.
pub proof fn lemma_bbox_range(s: Seq<FiveInRowMove>)
    requires
        s.len() > 0,
    ensures
        i32::MIN <= crate::board::min_x(s) <= i32::MAX,
        i32::MIN <= crate::board::max_x(s) <= i32::MAX,
        i32::MIN <= crate::board::min_y(s) <= i32::MAX,
        i32::MIN <= crate::board::max_y(s) <= i32::MAX,
    decreases s.len(),
{
    if s.len() > 1 {
        lemma_bbox_range(s.drop_last());
    }
}

proof fn lemma_window_unoccupied(
    s: Seq<FiveInRowMove>,
    myself: bool,
    x0: int,
    x_end: int,
    y0: int,
    y_end: int,
    i: int,
)
    requires
        0 <= i < window_candidates(s, myself, x0, x_end, y0, y_end).len(),
        i32::MIN <= x0,
        x_end <= i32::MAX as int + 1,
        i32::MIN <= y0,
        y_end <= i32::MAX as int + 1,
    ensures
        !occupied(
            s,
            window_candidates(s, myself, x0, x_end, y0, y_end)[i].x_spec(),
            window_candidates(s, myself, x0, x_end, y0, y_end)[i].y_spec(),
        ),
    decreases x_end - x0,
{
    if x0 < x_end {
        let col = column_candidates(s, myself, x0, y0, y_end);
        if i < col.len() {
            lemma_column_unoccupied(s, myself, x0, y0, y_end, i);
        } else {
            lemma_window_unoccupied(s, myself, x0 + 1, x_end, y0, y_end, i - col.len());
        }
    }
}


/// Whether `a` strictly precedes `b` by shallow score in the optimiser's
/// order.
fn shallow_before(a: &Suggestion, b: &Suggestion, myself: bool) -> (r: bool)
    ensures
        r == pair_before((a.mv, a.score), (b.mv, b.score), myself),
{
    if myself {
        matches!(a.get_score().compare(b.get_score()), Ordering::Greater)
    } else {
        matches!(a.get_score().compare(b.get_score()), Ordering::Less)
    }
}

proof fn lemma_insert_pair_at(
    p: (FiveInRowMove, Score),
    s: Seq<(FiveInRowMove, Score)>,
    pos: int,
    myself: bool,
)
    requires
        0 <= pos <= s.len(),
        forall|k: int| pos <= k < s.len() ==> pair_before(p, #[trigger] s[k], myself),
        pos > 0 ==> !pair_before(p, s[pos - 1], myself),
    ensures
        insert_pair(p, s, myself) =~= s.insert(pos, p),
    decreases s.len(),
{
    if s.len() == 0 {
    } else if pos == s.len() {
    } else {
        lemma_insert_pair_at(p, s.drop_last(), pos, myself);
    }
}

/// The stable insertion sort of fresh suggestions by shallow score, in
/// the optimiser's order.
fn sort_by_shallow(v: Vec<Suggestion>, myself: bool) -> (r: Vec<Suggestion>)
    ensures
        pairs_of(r@) =~= sort_pairs(pairs_of(v@), myself),
        all_leaves(v@) ==> all_leaves(r@),
{
    let ghost orig = v@;
    let mut v = v;
    let mut out: Vec<Suggestion> = Vec::new();
    let ghost i: int = 0;
    while v.len() > 0
        invariant
            0 <= i <= orig.len(),
            v@ =~= orig.skip(i),
            pairs_of(out@) =~= sort_pairs(pairs_of(orig.take(i)), myself),
            out@.len() == i,
            all_leaves(orig) ==> all_leaves(out@),
            forall|k: int| 0 <= k < v@.len() ==> v@[k] == orig[i + k],
        decreases v@.len(),
    {
        let x: Suggestion = v.remove(0);
        let mut pos: usize = out.len();
        while pos > 0 && shallow_before(&x, &out[pos - 1], myself)
            invariant
                0 <= pos <= out@.len(),
                forall|k: int|
                    pos <= k < out@.len() ==> pair_before(
                        (x.mv, x.score),
                        #[trigger] pairs_of(out@)[k],
                        myself,
                    ),
            decreases pos,
        {
            pos = pos - 1;
        }
        proof {
            lemma_insert_pair_at((x.mv, x.score), pairs_of(out@), pos as int, myself);
            assert(pairs_of(orig.take(i + 1)).drop_last() =~= pairs_of(orig.take(i)));
            assert(pairs_of(orig.take(i + 1)).last() == (x.mv, x.score));
        }
        let ghost out0 = out@;
        out.insert(pos, x);
        proof {
            assert(pairs_of(out@) =~= pairs_of(out0).insert(pos as int, (x.mv, x.score)));
            if all_leaves(orig) {
                assert(x == orig[i]);
                assert(orig[i].depth == 0 && orig[i].suggestions@.len() == 0);
                assert forall|t: int| 0 <= t < out@.len() implies ((#[trigger] out@[t]).depth == 0
                    && out@[t].suggestions@.len() == 0) by {
                    if t < pos {
                        assert(out@[t] == out0[t]);
                    } else if t == pos {
                        assert(out@[t] == x);
                    } else {
                        assert(out@[t] == out0[t - 1]);
                    }
                }
            }
            i = i + 1;
        }
    }
    proof {
        assert(orig.take(orig.len() as int) =~= orig);
    }
    out
}


/// No score that the search handles comes near this magnitude.
pub const SAFE_MAG: i128 = 0x4000_0000_0000_0000_0000_0000_0000;

/// The magnitude bound of the score of a board of `n` moves.
pub open spec fn score_bound(n: int) -> int {
    4 * (LINE_BOUND as int) * n
}

/// Multiplying a numeric value by `-1` is exact negation.
proof fn lemma_neg_exact(v: int)
    ensures
        crate::score::div_trunc(v * -1, 1) == -v,
{
    if v >= 0 {
        vstd::arithmetic::div_mod::lemma_div_basics_1(v);
    } else {
        vstd::arithmetic::div_mod::lemma_div_basics_1(-v);
    }
}

/// Halving with truncation does not grow the magnitude.
proof fn lemma_half_bound(v: int)
    ensures
        crate::score::div_trunc(v * 1, 2) <= crate::mv::abs_int(v),
        -crate::mv::abs_int(v) <= crate::score::div_trunc(v * 1, 2),
{
    if v >= 0 {
        vstd::arithmetic::div_mod::lemma_div_nonincreasing(v, 2);
        vstd::arithmetic::div_mod::lemma_div_pos_is_pos(v, 2);
    } else {
        vstd::arithmetic::div_mod::lemma_div_nonincreasing(-v, 2);
        vstd::arithmetic::div_mod::lemma_div_pos_is_pos(-v, 2);
    }
}

/// The beam threshold of a level, computed from the optimiser's worst
/// and best scores.
fn beam_limit(mn: Score, mx: Score, myself: bool) -> (r: Score)
    requires
        crate::board::score_mag_within(mn, SAFE_MAG as int),
        crate::board::score_mag_within(mx, SAFE_MAG as int),
    ensures
        r == keep_limit(mn, mx, myself),
{
    proof {
        if let Score::Numeric(v) = mx {
            lemma_neg_exact(v as int);
        }
        if let Score::Numeric(v) = mn {
            lemma_neg_exact(v as int);
        }
    }
    let diff: Score = mn.minus(mx);
    proof {
        if let Score::Numeric(v) = diff {
            lemma_neg_exact(v as int);
        }
    }
    let mag: Score = diff.abs();
    proof {
        if let Score::Numeric(v) = mag {
            lemma_half_bound(v as int);
        }
    }
    let beam: Score = mag.times_frac(1, 2);
    proof {
        if let Score::Numeric(v) = beam {
            lemma_neg_exact(v as int);
        }
    }
    if myself {
        mx.minus(beam)
    } else {
        mx.plus(beam)
    }
}

pub struct GamePlay {
    pub game: FiveInRow,
    pub suggestions: Vec<Suggestion>,
}

impl GamePlay {
    /// A driver over an existing board, with no suggestions yet.
    pub fn from_game(game: FiveInRow) -> (r: GamePlay)
        ensures
            r.game == game,
            r.suggestions@ =~= Seq::<Suggestion>::empty(),
    {
        GamePlay { game, suggestions: Vec::new() }
    }

    /// One search level: the board after `parent_moves`, its candidates
    /// each scored as a fresh suggestion, sorted in the optimiser's
    /// order, thinned by the beam threshold, and truncated to `count`.
    /// A parent move on an occupied cell fails with `IncorrectMove`.
    fn get_single_level_suggestions(
        &self,
        myself: bool,
        parent_moves: &Vec<FiveInRowMove>,
        count: usize,
    ) -> (r: Result<Vec<Suggestion>, Error>)
        ensures
            (match apply_moves(self.game.moves@, parent_moves@) {
                Ok(s2) => r matches Ok(v) && pairs_of(v@) =~= level_result_pairs(
                    s2,
                    myself,
                    count as int,
                ) && all_leaves(v@) && v@.len() <= count,
                Err(m) => r == Err::<Vec<Suggestion>, Error>(Error::IncorrectMove(m)),
            }),
    {
        let mut game: FiveInRow = self.game.duplicate();
        proof {
            assert(parent_moves@.skip(0) =~= parent_moves@);
        }
        let mut pi: usize = 0;
        while pi < parent_moves.len()
            invariant
                0 <= pi <= parent_moves@.len(),
                apply_moves(self.game.moves@, parent_moves@) == apply_moves(
                    game.moves@,
                    parent_moves@.skip(pi as int),
                ),
            decreases parent_moves@.len() - pi,
        {
            let m: FiveInRowMove = parent_moves[pi];
            proof {
                assert(parent_moves@.skip(pi as int)[0] == parent_moves@[pi as int]);
                assert(parent_moves@.skip(pi as int).drop_first() =~= parent_moves@.skip(pi + 1));
            }
            match game.do_move(m) {
                Ok(_) => {},
                Err(e) => {
                    return Err(e);
                },
            }
            pi = pi + 1;
        }
        proof {
            assert(parent_moves@.skip(parent_moves@.len() as int) =~= Seq::<
                FiveInRowMove,
            >::empty());
        }
        let ghost s2 = game.moves@;
        let n_board: usize = game.moves.len();
        let cands: Vec<FiveInRowMove> = game.get_possible_moves(myself);
        proof {
            lemma_candidates_unoccupied(s2, myself);
        }
        let mut poss: Vec<Suggestion> = Vec::new();
        let mut ci: usize = 0;
        while ci < cands.len()
            invariant
                0 <= ci <= cands@.len(),
                cands@ == candidates_spec(s2, myself),
                s2 == game.moves@,
                n_board == s2.len(),
                poss@.len() == ci,
                forall|k: int|
                    0 <= k < ci ==> (#[trigger] poss@[k]).mv == cands@[k] && poss@[k].score
                        == board_score_spec(s2.push(cands@[k])) && poss@[k].depth == 0
                        && poss@[k].suggestions@.len() == 0,
                forall|k: int|
                    0 <= k < ci ==> crate::board::score_mag_within(
                        (#[trigger] poss@[k]).score,
                        score_bound(s2.len() as int + 1),
                    ),
            decreases cands@.len() - ci,
        {
            let c: FiveInRowMove = cands[ci];
            let mut gt: FiveInRow = game.duplicate();
            proof {
                lemma_candidates_unoccupied(s2, myself);
            }
            match gt.do_move(c) {
                Ok(_) => {
                    let sc: Score = gt.get_score();
                    poss.push(Suggestion::new(c, sc));
                },
                Err(_) => {
                    proof {
                        assert(false);
                    }
                },
            }
            ci = ci + 1;
        }
        let ghost ps = level_pairs(s2, myself);
        proof {
            assert(pairs_of(poss@) =~= ps);
        }
        let mut mn: Score = if myself {
            Score::Win
        } else {
            Score::Loss
        };
        let mut mx: Score = if myself {
            Score::Loss
        } else {
            Score::Win
        };
        let mut k: usize = 0;
        while k < poss.len()
            invariant
                0 <= k <= poss@.len(),
                pairs_of(poss@) =~= ps,
                poss@.len() == ps.len(),
                (mn, mx) == fold_minmax(ps, k as int, myself),
                crate::board::score_mag_within(mn, score_bound(n_board + 1)),
                crate::board::score_mag_within(mx, score_bound(n_board + 1)),
                n_board == s2.len(),
                forall|j: int|
                    0 <= j < poss@.len() ==> crate::board::score_mag_within(
                        (#[trigger] poss@[j]).score,
                        score_bound(s2.len() as int + 1),
                    ),
            decreases poss@.len() - k,
        {
            let sc: Score = *poss[k].get_score();
            proof {
                assert(ps[k as int].1 == sc);
            }
            if myself {
                mn = *Score::min(&mn, &sc);
                mx = *Score::max(&mx, &sc);
            } else {
                mn = *Score::max(&mn, &sc);
                mx = *Score::min(&mx, &sc);
            }
            k = k + 1;
        }
        proof {
            let li: int = 4 * (LINE_BOUND as int);
            assert(li * (n_board + 1) <= li * (usize::MAX as int + 1)) by (nonlinear_arith)
                requires
                    0 <= n_board <= usize::MAX as int,
                    0 <= li,
            ;
            assert(li * (usize::MAX as int + 1) < SAFE_MAG as int);
        }
        let limit: Score = beam_limit(mn, mx, myself);
        let sorted: Vec<Suggestion> = sort_by_shallow(poss, myself);
        let ghost sorted0 = sorted@;
        let ghost pred = keep_pred(limit, myself);
        let mut sorted: Vec<Suggestion> = sorted;
        let mut kept: Vec<Suggestion> = Vec::new();
        let ghost fi: int = 0;
        proof {
            reveal(Seq::filter);
        }
        while sorted.len() > 0
            invariant
                0 <= fi <= sorted0.len(),
                sorted@ =~= sorted0.skip(fi),
                pred == keep_pred(limit, myself),
                pairs_of(kept@) =~= pairs_of(sorted0.take(fi)).filter(pred),
                all_leaves(sorted0) ==> all_leaves(kept@),
                forall|k2: int| 0 <= k2 < sorted@.len() ==> sorted@[k2] == sorted0[fi + k2],
            decreases sorted@.len(),
        {
            let x: Suggestion = sorted.remove(0);
            let keep: bool = if myself {
                !matches!(x.get_score().compare(&limit), Ordering::Less)
            } else {
                !matches!(x.get_score().compare(&limit), Ordering::Greater)
            };
            proof {
                reveal(Seq::filter);
                assert(pairs_of(sorted0.take(fi + 1)).drop_last() =~= pairs_of(sorted0.take(fi)));
                assert(pairs_of(sorted0.take(fi + 1)).last() == (x.mv, x.score));
            }
            let ghost kept0 = kept@;
            if keep {
                kept.push(x);
                proof {
                    assert(pairs_of(kept@) =~= pairs_of(kept0).push((x.mv, x.score)));
                }
            }
            proof {
                fi = fi + 1;
            }
        }
        proof {
            assert(sorted0.take(sorted0.len() as int) =~= sorted0);
        }
        if kept.len() > count {
            kept.truncate(count);
            proof {
                assert(pairs_of(kept@) =~= pairs_of(sorted0).filter(pred).take(count as int));
            }
        }
        Ok(kept)
    }
}


/// The beam width at a given remaining depth: twice the depth less
/// four, with a floor of two.
pub open spec fn beam_count(depth: int) -> int {
    if 2 * depth > 6 {
        2 * depth - 4
    } else {
        2
    }
}

/// `a` strictly precedes `b` by deep score in the optimiser's order.
pub open spec fn deep_before(a: Suggestion, b: Suggestion, myself: bool) -> bool {
    if myself {
        a.deep_score_spec().gt_spec(b.deep_score_spec())
    } else {
        a.deep_score_spec().lt_spec(b.deep_score_spec())
    }
}

/// Stable insertion of `x` into `s` under the deep-score order.
pub open spec fn insert_by_deep(x: Suggestion, s: Seq<Suggestion>, myself: bool) -> Seq<Suggestion>
    decreases s.len(),
{
    if s.len() == 0 {
        seq![x]
    } else if deep_before(x, s.last(), myself) {
        insert_by_deep(x, s.drop_last(), myself).push(s.last())
    } else {
        s.push(x)
    }
}

/// The stable insertion sort of suggestions by deep score: best first
/// for us, worst first for the opponent.
pub open spec fn sort_by_deep(s: Seq<Suggestion>, myself: bool) -> Seq<Suggestion>
    decreases s.len(),
{
    if s.len() == 0 {
        s
    } else {
        insert_by_deep(s.last(), sort_by_deep(s.drop_last(), myself), myself)
    }
}

/// Adjacent suggestions stand in the optimiser's deep-score order.
pub open spec fn deep_sorted(s: Seq<Suggestion>, myself: bool) -> bool {
    forall|i: int| 0 <= i < s.len() - 1 ==> !deep_before(#[trigger] s[i + 1], s[i], myself)
}

proof fn lemma_insert_by_deep_at(x: Suggestion, s: Seq<Suggestion>, pos: int, myself: bool)
    requires
        0 <= pos <= s.len(),
        forall|k: int| pos <= k < s.len() ==> deep_before(x, #[trigger] s[k], myself),
        pos > 0 ==> !deep_before(x, s[pos - 1], myself),
    ensures
        insert_by_deep(x, s, myself) =~= s.insert(pos, x),
    decreases s.len(),
{
    if s.len() == 0 {
    } else if pos == s.len() {
    } else {
        lemma_insert_by_deep_at(x, s.drop_last(), pos, myself);
    }
}

/// The sorted suggestions are a rearrangement of the input, with their
/// shallow pairs preserved, and stand in the deep-score order.
pub proof fn lemma_sort_by_deep_ensures(s: Seq<Suggestion>, myself: bool)
    ensures
        sort_by_deep(s, myself).to_multiset() =~= s.to_multiset(),
        pairs_of(sort_by_deep(s, myself)).to_multiset() =~= pairs_of(s).to_multiset(),
        deep_sorted(sort_by_deep(s, myself), myself),
        sort_by_deep(s, myself).len() == s.len(),
    decreases s.len(),
{
    broadcast use vstd::seq_lib::group_to_multiset_ensures;

    if s.len() > 0 {
        lemma_sort_by_deep_ensures(s.drop_last(), myself);
        lemma_insert_by_deep_ensures(s.last(), sort_by_deep(s.drop_last(), myself), myself);
        assert(s =~= s.drop_last().push(s.last()));
        assert(pairs_of(s).drop_last() =~= pairs_of(s.drop_last()));
        assert(pairs_of(s) =~= pairs_of(s.drop_last()).push((s.last().mv, s.last().score)));
    }
}

proof fn lemma_insert_by_deep_ensures(x: Suggestion, s: Seq<Suggestion>, myself: bool)
    requires
        deep_sorted(s, myself),
    ensures
        insert_by_deep(x, s, myself).to_multiset() =~= s.to_multiset().insert(x),
        pairs_of(insert_by_deep(x, s, myself)).to_multiset() =~= pairs_of(s).to_multiset().insert(
            (x.mv, x.score),
        ),
        deep_sorted(insert_by_deep(x, s, myself), myself),
        insert_by_deep(x, s, myself).len() == s.len() + 1,
    decreases s.len(),
{
    broadcast use vstd::seq_lib::group_to_multiset_ensures;

    if s.len() == 0 {
        assert(insert_by_deep(x, s, myself) =~= Seq::empty().push(x));
        assert(pairs_of(insert_by_deep(x, s, myself)) =~= Seq::empty().push((x.mv, x.score)));
    } else if deep_before(x, s.last(), myself) {
        assert(deep_sorted(s.drop_last(), myself)) by {
            assert forall|i: int| 0 <= i < s.drop_last().len() - 1 implies !deep_before(
                #[trigger] s.drop_last()[i + 1],
                s.drop_last()[i],
                myself,
            ) by {
                assert(!deep_before(s[i + 1], s[i], myself));
            }
        }
        lemma_insert_by_deep_ensures(x, s.drop_last(), myself);
        let inner = insert_by_deep(x, s.drop_last(), myself);
        let r = inner.push(s.last());
        assert(s.drop_last().push(s.last()) =~= s);
        assert(s.drop_last().to_multiset().insert(s.last()) =~= s.to_multiset());
        assert(pairs_of(s).drop_last() =~= pairs_of(s.drop_last()));
        assert(pairs_of(s) =~= pairs_of(s.drop_last()).push((s.last().mv, s.last().score)));
        assert(pairs_of(r) =~= pairs_of(inner).push((s.last().mv, s.last().score)));
        if s.len() >= 2 {
            assert(!deep_before(s[(s.len() - 2) + 1], s[s.len() - 2], myself));
            assert(s.drop_last().last() == s[s.len() - 2]);
        }
        lemma_insert_by_deep_last(x, s.drop_last(), s.last(), myself);
        assert forall|i: int| 0 <= i < r.len() - 1 implies !deep_before(
            #[trigger] r[i + 1],
            r[i],
            myself,
        ) by {
            if i + 1 < inner.len() {
                assert(!deep_before(inner[i + 1], inner[i], myself));
            }
        }
    } else {
        let r = s.push(x);
        assert(pairs_of(r) =~= pairs_of(s).push((x.mv, x.score)));
        assert forall|i: int| 0 <= i < r.len() - 1 implies !deep_before(
            #[trigger] r[i + 1],
            r[i],
            myself,
        ) by {
            if i + 1 < s.len() {
                assert(!deep_before(s[i + 1], s[i], myself));
            }
        }
    }
}

/// After inserting `x` below `nxt` in the order, the new last element
/// still does not strictly follow `nxt`.
proof fn lemma_insert_by_deep_last(
    x: Suggestion,
    s: Seq<Suggestion>,
    nxt: Suggestion,
    myself: bool,
)
    requires
        deep_sorted(s, myself),
        deep_before(x, nxt, myself),
        s.len() > 0 ==> !deep_before(nxt, s.last(), myself),
    ensures
        !deep_before(nxt, insert_by_deep(x, s, myself).last(), myself),
    decreases s.len(),
{
}

/// The stable insertion sort of suggestions by deep score.
fn sort_suggestions_by_deep(v: Vec<Suggestion>, myself: bool) -> (r: Vec<Suggestion>)
    ensures
        r@ =~= sort_by_deep(v@, myself),
{
    let ghost orig = v@;
    let mut v = v;
    let mut out: Vec<Suggestion> = Vec::new();
    let ghost i: int = 0;
    while v.len() > 0
        invariant
            0 <= i <= orig.len(),
            v@ =~= orig.skip(i),
            out@ =~= sort_by_deep(orig.take(i), myself),
            forall|k: int| 0 <= k < v@.len() ==> v@[k] == orig[i + k],
        decreases v@.len(),
    {
        let x: Suggestion = v.remove(0);
        let mut pos: usize = out.len();
        while pos > 0 && deep_before_exec(&x, &out[pos - 1], myself)
            invariant
                0 <= pos <= out@.len(),
                forall|k: int| pos <= k < out@.len() ==> deep_before(x, #[trigger] out@[k], myself),
            decreases pos,
        {
            pos = pos - 1;
        }
        proof {
            lemma_insert_by_deep_at(x, out@, pos as int, myself);
            assert(orig.take(i + 1).drop_last() =~= orig.take(i));
            assert(orig.take(i + 1).last() == orig[i]);
        }
        out.insert(pos, x);
        proof {
            i = i + 1;
        }
    }
    proof {
        assert(orig.take(orig.len() as int) =~= orig);
    }
    out
}

/// Whether `a` strictly precedes `b` by deep score in the optimiser's
/// order.
fn deep_before_exec(a: &Suggestion, b: &Suggestion, myself: bool) -> (r: bool)
    ensures
        r == deep_before(*a, *b, myself),
{
    if myself {
        matches!(a.get_deep_score().compare(&b.get_deep_score()), Ordering::Greater)
    } else {
        matches!(a.get_deep_score().compare(&b.get_deep_score()), Ordering::Less)
    }
}

/// An identical move list with its own storage.
fn clone_moves(v: &Vec<FiveInRowMove>) -> (r: Vec<FiveInRowMove>)
    ensures
        r@ =~= v@,
{
    let mut out: Vec<FiveInRowMove> = Vec::new();
    let mut i: usize = 0;
    while i < v.len()
        invariant
            0 <= i <= v@.len(),
            out@ =~= v@.take(i as int),
        decreases v@.len() - i,
    {
        out.push(v[i]);
        proof {
            assert(v@.take(i + 1) =~= v@.take(i as int).push(v@[i as int]));
        }
        i = i + 1;
    }
    proof {
        assert(v@.take(v@.len() as int) =~= v@);
    }
    out
}

/// Extending a successful prefix by a move on a free cell extends the
/// resulting board by that move.
proof fn lemma_apply_snoc(s: Seq<FiveInRowMove>, pfx: Seq<FiveInRowMove>, c: FiveInRowMove, s2: Seq<FiveInRowMove>)
    requires
        apply_moves(s, pfx) == Ok::<Seq<FiveInRowMove>, FiveInRowMove>(s2),
        !occupied(s2, c.x_spec(), c.y_spec()),
    ensures
        apply_moves(s, pfx.push(c)) == Ok::<Seq<FiveInRowMove>, FiveInRowMove>(s2.push(c)),
    decreases pfx.len(),
{
    if pfx.len() == 0 {
        assert(pfx.push(c)[0] == c);
        assert(pfx.push(c).drop_first() =~= Seq::<FiveInRowMove>::empty());
        assert(apply_moves(s.push(c), Seq::<FiveInRowMove>::empty())
            == Ok::<Seq<FiveInRowMove>, FiveInRowMove>(s.push(c)));
    } else {
        assert(pfx.push(c)[0] == pfx[0]);
        assert(pfx.push(c).drop_first() =~= pfx.drop_first().push(c));
        lemma_apply_snoc(s.push(pfx[0]), pfx.drop_first(), c, s2);
        assert(apply_moves(s, pfx.push(c)) == apply_moves(
            s.push(pfx[0]),
            pfx.drop_first().push(c),
        ));
    }
}

/// The multiset of the sorted scored candidates is that of the input.
proof fn lemma_sort_pairs_multiset(s: Seq<(FiveInRowMove, Score)>, myself: bool)
    ensures
        sort_pairs(s, myself).to_multiset() =~= s.to_multiset(),
    decreases s.len(),
{
    broadcast use vstd::seq_lib::group_to_multiset_ensures;

    if s.len() > 0 {
        lemma_sort_pairs_multiset(s.drop_last(), myself);
        lemma_insert_pair_multiset(s.last(), sort_pairs(s.drop_last(), myself), myself);
        assert(s =~= s.drop_last().push(s.last()));
    }
}

proof fn lemma_insert_pair_multiset(
    p: (FiveInRowMove, Score),
    s: Seq<(FiveInRowMove, Score)>,
    myself: bool,
)
    ensures
        insert_pair(p, s, myself).to_multiset() =~= s.to_multiset().insert(p),
    decreases s.len(),
{
    broadcast use vstd::seq_lib::group_to_multiset_ensures;

    if s.len() == 0 {
        assert(insert_pair(p, s, myself) =~= Seq::empty().push(p));
    } else if pair_before(p, s.last(), myself) {
        lemma_insert_pair_multiset(p, s.drop_last(), myself);
        assert(s.drop_last().push(s.last()) =~= s);
        assert(s.drop_last().to_multiset().insert(s.last()) =~= s.to_multiset());
    }
}

/// Every scored candidate a level hands back claims a free cell of the
/// level's position.
proof fn lemma_level_result_unoccupied(s2: Seq<FiveInRowMove>, myself: bool, count: int, i: int)
    requires
        count >= 0,
        0 <= i < level_result_pairs(s2, myself, count).len(),
    ensures
        !occupied(
            s2,
            level_result_pairs(s2, myself, count)[i].0.x_spec(),
            level_result_pairs(s2, myself, count)[i].0.y_spec(),
        ),
{
    broadcast use vstd::seq_lib::group_to_multiset_ensures;

    let ps = level_pairs(s2, myself);
    let mm = fold_minmax(ps, ps.len() as int, myself);
    let limit = keep_limit(mm.0, mm.1, myself);
    let sorted = sort_pairs(ps, myself);
    let kept = sorted.filter(keep_pred(limit, myself));
    let p = level_result_pairs(s2, myself, count)[i];
    assert(kept.contains(p)) by {
        if kept.len() > count {
            assert(kept.take(count)[i] == kept[i]);
        }
    }
    assert(sorted.contains(p)) by {
        lemma_filter_subset(sorted, keep_pred(limit, myself), p);
    }
    assert(ps.contains(p)) by {
        lemma_sort_pairs_multiset(ps, myself);
        assert(sorted.to_multiset().count(p) > 0);
        assert(ps.to_multiset().count(p) > 0);
    }
    let j = choose|j: int| 0 <= j < ps.len() && ps[j] == p;
    assert(p.0 == candidates_spec(s2, myself)[j]);
    lemma_candidates_unoccupied(s2, myself);
}

/// An element kept by a filter is an element of the sequence.
proof fn lemma_filter_subset(
    s: Seq<(FiveInRowMove, Score)>,
    pred: spec_fn((FiveInRowMove, Score)) -> bool,
    x: (FiveInRowMove, Score),
)
    requires
        s.filter(pred).contains(x),
    ensures
        s.contains(x),
    decreases s.len(),
{
    reveal(Seq::filter);
    if s.len() > 0 {
        if pred(s.last()) && x == s.last() {
            assert(s[s.len() - 1] == x);
        } else {
            let f = s.filter(pred);
            let fd = s.drop_last().filter(pred);
            assert(fd.contains(x)) by {
                let j = choose|j: int| 0 <= j < f.len() && f[j] == x;
                if pred(s.last()) {
                    assert(f =~= fd.push(s.last()));
                    assert(j < fd.len());
                    assert(fd[j] == x);
                } else {
                    assert(f =~= fd);
                }
            }
            lemma_filter_subset(s.drop_last(), pred, x);
            let j = choose|j: int| 0 <= j < s.drop_last().len() && s.drop_last()[j] == x;
            assert(s[j] == x);
        }
    }
}

/// Elements of equal multisets are leaves together.
proof fn lemma_all_leaves_permuted(s1: Seq<Suggestion>, s2: Seq<Suggestion>)
    requires
        s1.to_multiset() =~= s2.to_multiset(),
        all_leaves(s1),
    ensures
        all_leaves(s2),
{
    broadcast use vstd::seq_lib::group_to_multiset_ensures;

    assert forall|i: int| 0 <= i < s2.len() implies ((#[trigger] s2[i]).depth == 0
        && s2[i].suggestions@.len() == 0) by {
        assert(s2.contains(s2[i]));
        assert(s2.to_multiset().count(s2[i]) > 0);
        assert(s1.to_multiset().count(s2[i]) > 0);
        assert(s1.contains(s2[i]));
        let j = choose|j: int| 0 <= j < s1.len() && s1[j] == s2[i];
        assert(s1[j].depth == 0 && s1[j].suggestions@.len() == 0);
    }
}


impl GamePlay {
    /// The bounded-beam minimax search after `parents`: the level's
    /// suggestions, each undecided one deepened with the opponent's best
    /// replies for `depth` further plies, re-sorted by deep score in the
    /// optimiser's order. A parent move on an occupied cell fails with
    /// `IncorrectMove`.
    pub fn get_suggestions(&self, myself: bool, parents: &Vec<FiveInRowMove>, depth: u8) -> (r:
        Result<Vec<Suggestion>, Error>)
        ensures
            (match apply_moves(self.game.moves@, parents@) {
                Ok(s2) => r matches Ok(v) && {
                    &&& pairs_of(v@).to_multiset() == level_result_pairs(
                        s2,
                        myself,
                        beam_count(depth as int),
                    ).to_multiset()
                    &&& v@.len() == level_result_pairs(s2, myself, beam_count(depth as int)).len()
                    &&& deep_sorted(v@, myself)
                    &&& (depth == 0 ==> all_leaves(v@))
                    &&& (depth > 0 ==> deepened(s2, myself, depth as int, v@))
                },
                Err(m) => r == Err::<Vec<Suggestion>, Error>(Error::IncorrectMove(m)),
            }),
        decreases depth,
    {
        let d2: usize = 2 * (depth as usize);
        let count: usize = if d2 > 6 {
            d2 - 4
        } else {
            2
        };
        proof {
            assert(count as int == beam_count(depth as int));
        }
        let mut suggestions: Vec<Suggestion> = match self.get_single_level_suggestions(
            myself,
            parents,
            count,
        ) {
            Ok(v) => v,
            Err(e) => {
                return Err(e);
            },
        };
        let ghost s2 = (match apply_moves(self.game.moves@, parents@) {
            Ok(b) => b,
            Err(_) => Seq::<FiveInRowMove>::empty(),
        });
        let ghost pairs0 = pairs_of(suggestions@);
        if depth > 0 {
            let mut k: usize = 0;
            while k < suggestions.len()
                invariant
                    0 <= k <= suggestions@.len(),
                    suggestions@.len() == pairs0.len(),
                    pairs_of(suggestions@) =~= pairs0,
                    pairs0 =~= level_result_pairs(s2, myself, beam_count(depth as int)),
                    apply_moves(self.game.moves@, parents@) == Ok::<
                        Seq<FiveInRowMove>,
                        FiveInRowMove,
                    >(s2),
                    depth > 0,
                    forall|j: int|
                        k <= j < suggestions@.len() ==> (#[trigger] suggestions@[j]).depth == 0
                            && suggestions@[j].suggestions@.len() == 0,
                    forall|j: int|
                        0 <= j < k ==> {
                            &&& ((#[trigger] suggestions@[j]).score.is_finished_spec()
                                ==> suggestions@[j].depth == 0 && suggestions@[j].suggestions@.len()
                                == 0)
                            &&& (!suggestions@[j].score.is_finished_spec() ==> suggestions@[j].depth
                                >= 1 && searched(
                                s2.push(suggestions@[j].mv),
                                !myself,
                                depth - 1,
                                suggestions@[j].suggestions@,
                            ))
                        },
                decreases suggestions@.len() - k,
            {
                let finished: bool = suggestions[k].get_deep_score().is_finished();
                if !finished {
                    let mv_k: FiveInRowMove = *suggestions[k].get_move();
                    proof {
                        assert(pairs_of(suggestions@)[k as int] == (
                            mv_k,
                            suggestions@[k as int].score,
                        ));
                        lemma_level_result_unoccupied(s2, myself, beam_count(depth as int), k as int);
                        lemma_apply_snoc(self.game.moves@, parents@, mv_k, s2);
                    }
                    let mut parents2: Vec<FiveInRowMove> = clone_moves(parents);
                    parents2.push(mv_k);
                    proof {
                        assert(parents2@ =~= parents@.push(mv_k));
                    }
                    let children: Vec<Suggestion> = match self.get_suggestions(
                        !myself,
                        &parents2,
                        depth - 1,
                    ) {
                        Ok(c) => c,
                        Err(_) => {
                            proof {
                                assert(false);
                            }
                            return Err(Error::SuggestionComputationError);
                        },
                    };
                    let empty_path: Vec<FiveInRowMove> = Vec::new();
                    let ghost sugg0 = suggestions@;
                    let mut s: Suggestion = suggestions.remove(k);
                    let ghost s_old = s;
                    let res2: Result<(), Error> = s.add_suggestions(&empty_path, children);
                    proof {
                        assert(s_old.graft_ok(empty_path@, 0));
                        assert(s.mv == s_old.mv && s.score == s_old.score);
                    }
                    suggestions.insert(k, s);
                    proof {
                        assert(suggestions@ =~= sugg0.update(k as int, s));
                        assert(pairs_of(suggestions@) =~= pairs0);
                    }
                }
                k = k + 1;
            }
        }
        let ghost pre = suggestions@;
        let sorted: Vec<Suggestion> = sort_suggestions_by_deep(suggestions, myself);
        proof {
            lemma_sort_by_deep_ensures(pre, myself);
            if depth == 0 {
                lemma_all_leaves_permuted(pre, sorted@);
            } else {
                lemma_deepened_permuted(s2, myself, depth as int, pre, sorted@);
            }
        }
        Ok(sorted)
    }
}


/// A forest that a search of `depth` plies from the position `s2`
/// produces: the level's scored candidates in content, sorted by deep
/// score in the optimiser's order.
pub open spec fn searched(s2: Seq<FiveInRowMove>, myself: bool, depth: int, v: Seq<Suggestion>) -> bool {
    &&& pairs_of(v).to_multiset() == level_result_pairs(s2, myself, beam_count(depth)).to_multiset()
    &&& v.len() == level_result_pairs(s2, myself, beam_count(depth)).len()
    &&& deep_sorted(v, myself)
}

/// Every suggestion of the forest carries its own subtree of replies:
/// one decided by its shallow score stays a leaf, and any other holds,
/// as its children, exactly what a search of one ply less from the
/// position with its move played produces.
pub open spec fn deepened(s2: Seq<FiveInRowMove>, myself: bool, depth: int, v: Seq<Suggestion>) -> bool {
    forall|i: int|
        0 <= i < v.len() ==> {
            &&& ((#[trigger] v[i]).score.is_finished_spec() ==> v[i].depth == 0
                && v[i].suggestions@.len() == 0)
            &&& (!v[i].score.is_finished_spec() ==> v[i].depth >= 1 && searched(
                s2.push(v[i].mv),
                !myself,
                depth - 1,
                v[i].suggestions@,
            ))
        }
}

/// Elements of equal multisets are deepened together.
proof fn lemma_deepened_permuted(
    s2: Seq<FiveInRowMove>,
    myself: bool,
    depth: int,
    a: Seq<Suggestion>,
    b: Seq<Suggestion>,
)
    requires
        a.to_multiset() =~= b.to_multiset(),
        deepened(s2, myself, depth, a),
    ensures
        deepened(s2, myself, depth, b),
{
    broadcast use vstd::seq_lib::group_to_multiset_ensures;

    assert forall|i: int| 0 <= i < b.len() implies {
        &&& ((#[trigger] b[i]).score.is_finished_spec() ==> b[i].depth == 0
            && b[i].suggestions@.len() == 0)
        &&& (!b[i].score.is_finished_spec() ==> b[i].depth >= 1 && searched(
            s2.push(b[i].mv),
            !myself,
            depth - 1,
            b[i].suggestions@,
        ))
    } by {
        assert(b.contains(b[i]));
        assert(b.to_multiset().count(b[i]) > 0);
        assert(a.to_multiset().count(b[i]) > 0);
        assert(a.contains(b[i]));
        let j = choose|j: int| 0 <= j < a.len() && a[j] == b[i];
        assert(a[j] == b[i]);
    }
}

impl GamePlay {
    /// Runs the search and stores its outcome: with an empty prefix the
    /// root forest is replaced by the search's result; otherwise the
    /// produced suggestions are grafted under the forest at `parents`.
    pub fn compute_suggestions(&mut self, myself: bool, parents: Vec<FiveInRowMove>, depth: u8) -> (r:
        Result<(), Error>)
        ensures
            final(self).game == old(self).game,
            (match apply_moves(old(self).game.moves@, parents@) {
                Err(m) => r == Err::<(), Error>(Error::IncorrectMove(m)) && final(self).suggestions@
                    == old(self).suggestions@,
                Ok(s2) => {
                    if parents@.len() == 0 {
                        r == Ok::<(), Error>(()) && searched(
                            s2,
                            myself,
                            depth as int,
                            final(self).suggestions@,
                        ) && (depth == 0 ==> all_leaves(final(self).suggestions@)) && (depth > 0
                            ==> deepened(s2, myself, depth as int, final(self).suggestions@))
                    } else {
                        &&& (forest_graft_ok(old(self).suggestions@, parents@) ==> r == Ok::<
                            (),
                            Error,
                        >(()) && (exists|add: Seq<Suggestion>|
                            forest_grafted(old(self).suggestions@, final(self).suggestions@, parents@, add)
                                && #[trigger] searched(s2, myself, depth as int, add) && (depth > 0
                                ==> deepened(s2, myself, depth as int, add))))
                        &&& (!forest_graft_ok(old(self).suggestions@, parents@) ==> r == Err::<
                            (),
                            Error,
                        >(Error::SuggestionComputationError) && trees_like(
                            old(self).suggestions@,
                            final(self).suggestions@,
                        ))
                    }
                },
            }),
    {
        let sugg: Vec<Suggestion> = match self.get_suggestions(myself, &parents, depth) {
            Ok(v) => v,
            Err(e) => {
                return Err(e);
            },
        };
        let ghost add0 = sugg@;
        if parents.len() == 0 {
            self.suggestions = sugg;
            Ok(())
        } else {
            let r = Suggestion::extend_suggestions(&mut self.suggestions, &parents, sugg);
            proof {
                if forest_graft_ok(old(self).suggestions@, parents@) {
                    assert(forest_grafted(
                        old(self).suggestions@,
                        self.suggestions@,
                        parents@,
                        add0,
                    ) && searched(
                        (match apply_moves(old(self).game.moves@, parents@) {
                            Ok(b) => b,
                            Err(_) => Seq::<FiveInRowMove>::empty(),
                        }),
                        myself,
                        depth as int,
                        add0,
                    ) && (depth > 0 ==> deepened(
                        (match apply_moves(old(self).game.moves@, parents@) {
                            Ok(b) => b,
                            Err(_) => Seq::<FiveInRowMove>::empty(),
                        }),
                        myself,
                        depth as int,
                        add0,
                    )));
                }
            }
            r
        }
    }

    /// The move to play now: the head of the suggestion forest, computed
    /// with a depth-zero search first when the forest is empty. An empty
    /// search comes back as `NoSuggestionAvailable`.
    pub fn suggest_move(&mut self, myself: bool) -> (r: Result<Suggestion, Error>)
        ensures
            final(self).game == old(self).game,
            old(self).suggestions@.len() > 0 ==> final(self).suggestions@ == old(
                self,
            ).suggestions@,
            old(self).suggestions@.len() == 0 ==> searched(
                old(self).game.moves@,
                myself,
                0,
                final(self).suggestions@,
            ) && all_leaves(final(self).suggestions@),
            final(self).suggestions@.len() > 0 ==> (r matches Ok(s) && final(self).suggestions@[
                0
            ].tree_like(s)),
            final(self).suggestions@.len() == 0 ==> r == Err::<Suggestion, Error>(
                Error::NoSuggestionAvailable,
            ),
    {
        if self.suggestions.len() == 0 {
            proof {
                assert(apply_moves(self.game.moves@, Seq::<FiveInRowMove>::empty()) == Ok::<
                    Seq<FiveInRowMove>,
                    FiveInRowMove,
                >(self.game.moves@));
            }
            let empty_prefix: Vec<FiveInRowMove> = Vec::new();
            match self.compute_suggestions(myself, empty_prefix, 0) {
                Ok(_) => {},
                Err(_) => {
                    proof {
                        assert(false);
                    }
                    return Err(Error::NoSuggestionAvailable);
                },
            }
        }
        if self.suggestions.len() > 0 {
            let s: Suggestion = self.suggestions[0].clone_tree();
            Ok(s)
        } else {
            Err(Error::NoSuggestionAvailable)
        }
    }

    /// Records a real move, ours or the rival's: the root suggestion
    /// owning the move donates its children as the new forest (reusing
    /// the searched subtree), any other forest is discarded, and the move
    /// is played on the board. A move on an occupied cell is rejected
    /// with `IncorrectMove` after the forest has already been updated.
    pub fn add_move(&mut self, mv: FiveInRowMove) -> (r: Result<(), Error>)
        ensures
            ({
                let j = first_root_match(old(self).suggestions@, mv);
                if j >= 0 {
                    final(self).suggestions@ == old(self).suggestions@[j].suggestions@
                } else {
                    final(self).suggestions@ == Seq::<Suggestion>::empty()
                }
            }),
            occupied(old(self).game.moves@, mv.x_spec(), mv.y_spec()) ==> r == Err::<(), Error>(
                Error::IncorrectMove(mv),
            ) && final(self).game.moves@ == old(self).game.moves@,
            !occupied(old(self).game.moves@, mv.x_spec(), mv.y_spec()) ==> r == Ok::<(), Error>(())
                && final(self).game.moves@ == old(self).game.moves@.push(mv),
            old(self).game.wf_spec() ==> final(self).game.wf_spec(),
    {
        let n: usize = self.suggestions.len();
        let mut j: usize = 0;
        while j < n && !(*self.suggestions[j].get_move() == mv)
            invariant
                0 <= j <= n,
                n == self.suggestions@.len(),
                self.suggestions@ == old(self).suggestions@,
                self.game == old(self).game,
                forall|k: int| 0 <= k < j ==> self.suggestions@[k].mv != mv,
            decreases n - j,
        {
            j = j + 1;
        }
        proof {
            if j < n {
                lemma_first_root_match_at(self.suggestions@, mv, j as int);
            } else {
                lemma_first_root_match_none(self.suggestions@, mv);
            }
        }
        if j < n {
            let chosen: Suggestion = self.suggestions.remove(j);
            self.suggestions = chosen.suggestions;
        } else {
            self.suggestions = Vec::new();
        }
        self.game.do_move(mv)
    }
}

} // verus!
