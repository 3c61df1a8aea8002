//! Moves: a placed stone at integer coordinates, tagged by the side that
//! owns it, together with the signed line-distance that orders moves lying
//! on a common line.

use vstd::prelude::*;

verus! {

/// The capability a game move offers: telling whose stone it is.
pub trait GameMove {
    spec fn is_mine_spec(&self) -> bool;

    fn is_mine(&self) -> (r: bool)
        ensures
            r == self.is_mine_spec(),
    ;
}

#[derive(Debug, PartialEq, Eq, Structural, Clone, Copy)]
pub enum FiveInRowMove {
    Mine(i32, i32),
    Rivals(i32, i32),
}

impl FiveInRowMove {
    pub open spec fn x_spec(self) -> int {
        match self {
            FiveInRowMove::Mine(x, _) => x as int,
            FiveInRowMove::Rivals(x, _) => x as int,
        }
    }

    pub open spec fn y_spec(self) -> int {
        match self {
            FiveInRowMove::Mine(_, y) => y as int,
            FiveInRowMove::Rivals(_, y) => y as int,
        }
    }

    pub open spec fn mine_spec(self) -> bool {
        match self {
            FiveInRowMove::Mine(_, _) => true,
            FiveInRowMove::Rivals(_, _) => false,
        }
    }

    /// Two moves claim the same cell, whoever owns them.
    pub open spec fn same_cell(self, other: FiveInRowMove) -> bool {
        self.x_spec() == other.x_spec() && self.y_spec() == other.y_spec()
    }

    /// The signed line-distance: the coordinate difference along the
    /// dominant axis. For two moves on a common row, column or diagonal
    /// this is the signed number of cells from `other` to `self`.
    pub open spec fn dist_spec(self, other: FiveInRowMove) -> int {
        let dif_x = self.x_spec() - other.x_spec();
        let dif_y = self.y_spec() - other.y_spec();
        if abs_int(dif_x) > abs_int(dif_y) {
            dif_x
        } else {
            dif_y
        }
    }

    /// The smallest absolute line-distance from `self` to any move of `s`;
    /// `i64::MAX` when `s` is empty.
    pub open spec fn min_dist_spec(self, s: Seq<FiveInRowMove>) -> int
        decreases s.len(),
    {
        if s.len() == 0 {
            i64::MAX as int
        } else {
            min_int(self.min_dist_spec(s.drop_last()), abs_int(self.dist_spec(s.last())))
        }
    }

    pub fn get_x(&self) -> (r: i32)
        ensures
            r == self.x_spec(),
    {
        match self {
            FiveInRowMove::Mine(x, _) => *x,
            FiveInRowMove::Rivals(x, _) => *x,
        }
    }

    pub fn get_y(&self) -> (r: i32)
        ensures
            r == self.y_spec(),
    {
        match self {
            FiveInRowMove::Mine(_, y) => *y,
            FiveInRowMove::Rivals(_, y) => *y,
        }
    }

    /// Whether `maybe_other` is present and owned by the same side.
    pub fn is_same_type(&self, maybe_other: Option<&FiveInRowMove>) -> (r: bool)
        ensures
            r == (maybe_other matches Some(o) && self.mine_spec() == o.mine_spec()),
    {
        if let Some(other) = maybe_other {
            self.is_mine() == other.is_mine()
        } else {
            false
        }
    }

    /// The signed line-distance from `mv` to `self`.
    pub fn get_distance(&self, mv: &FiveInRowMove) -> (r: i64)
        ensures
            r == self.dist_spec(*mv),
    {
        let dif_x: i64 = (self.get_x() as i64) - (mv.get_x() as i64);
        let dif_y: i64 = (self.get_y() as i64) - (mv.get_y() as i64);
        if abs_i64(dif_x) > abs_i64(dif_y) {
            dif_x
        } else {
            dif_y
        }
    }

    /// The smallest absolute line-distance to any move of `vec`.
    pub fn get_distance_from_moves(&self, vec: &Vec<FiveInRowMove>) -> (r: i64)
        ensures
            r == self.min_dist_spec(vec@),
    {
        let mut ret: i64 = i64::MAX;
        let mut i: usize = 0;
        while i < vec.len()
            invariant
                0 <= i <= vec@.len(),
                ret == self.min_dist_spec(vec@.take(i as int)),
            decreases vec@.len() - i,
        {
            let d: i64 = abs_i64(self.get_distance(&vec[i]));
            if d < ret {
                ret = d;
            }
            proof {
                assert(vec@.take(i + 1).drop_last() =~= vec@.take(i as int));
                assert(vec@.take(i + 1).last() == vec@[i as int]);
            }
            i = i + 1;
        }
        proof {
            assert(vec@.take(vec@.len() as int) =~= vec@);
        }
        ret
    }
}

impl GameMove for FiveInRowMove {
    open spec fn is_mine_spec(&self) -> bool {
        self.mine_spec()
    }

    fn is_mine(&self) -> (r: bool) {
        match self {
            FiveInRowMove::Mine(_, _) => true,
            FiveInRowMove::Rivals(_, _) => false,
        }
    }
}

/// The absolute value of a line-distance, which always fits in `i64`.
pub fn abs_i64(x: i64) -> (r: i64)
    requires
        x > i64::MIN,
    ensures
        r == abs_int(x as int),
{
    if x >= 0 {
        x
    } else {
        -x
    }
}

pub open spec fn abs_int(x: int) -> int {
    if x >= 0 {
        x
    } else {
        -x
    }
}

pub open spec fn min_int(a: int, b: int) -> int {
    if a <= b {
        a
    } else {
        b
    }
}

/// Inserting `m` into `s` before every trailing element strictly greater
/// than `m` in the line order (so that insertion is stable).
pub open spec fn insert_by_line(m: FiveInRowMove, s: Seq<FiveInRowMove>) -> Seq<FiveInRowMove>
    decreases s.len(),
{
    if s.len() == 0 {
        seq![m]
    } else if m.dist_spec(s.last()) >= 0 {
        s.push(m)
    } else {
        insert_by_line(m, s.drop_last()).push(s.last())
    }
}

/// The stable insertion sort of `s` by the signed line-distance order.
pub open spec fn sort_by_line(s: Seq<FiveInRowMove>) -> Seq<FiveInRowMove>
    decreases s.len(),
{
    if s.len() == 0 {
        s
    } else {
        insert_by_line(s.last(), sort_by_line(s.drop_last()))
    }
}

/// Adjacent elements are in line order: no later element is strictly
/// nearer the line's start than its predecessor.
pub open spec fn line_adjacent_sorted(s: Seq<FiveInRowMove>) -> bool {
    forall|i: int| 0 <= i < s.len() - 1 ==> #[trigger] s[i + 1].dist_spec(s[i]) >= 0
}

proof fn lemma_insert_by_line_len(m: FiveInRowMove, s: Seq<FiveInRowMove>)
    ensures
        insert_by_line(m, s).len() == s.len() + 1,
    decreases s.len(),
{
    if s.len() > 0 && !(m.dist_spec(s.last()) >= 0) {
        lemma_insert_by_line_len(m, s.drop_last());
    }
}

/// When every element of `s` from `pos` on is strictly greater than `m`,
/// and the one just before `pos` (if any) is not, inserting `m` lands
/// exactly at `pos`.
proof fn lemma_insert_by_line_at(m: FiveInRowMove, s: Seq<FiveInRowMove>, pos: int)
    requires
        0 <= pos <= s.len(),
        forall|k: int| pos <= k < s.len() ==> #[trigger] m.dist_spec(s[k]) < 0,
        pos > 0 ==> m.dist_spec(s[pos - 1]) >= 0,
    ensures
        insert_by_line(m, s) =~= s.insert(pos, m),
    decreases s.len(),
{
    if s.len() == 0 {
    } else if pos == s.len() {
    } else {
        lemma_insert_by_line_at(m, s.drop_last(), pos);
    }
}

/// Sorting the moves of a line by the signed line-distance order,
/// with a stable insertion sort.
pub fn sort_moves(v: &Vec<FiveInRowMove>) -> (r: Vec<FiveInRowMove>)
    ensures
        r@ == sort_by_line(v@),
{
    let mut out: Vec<FiveInRowMove> = Vec::new();
    let mut i: usize = 0;
    while i < v.len()
        invariant
            0 <= i <= v@.len(),
            out@ == sort_by_line(v@.take(i as int)),
            out@.len() == i,
        decreases v@.len() - i,
    {
        let m: FiveInRowMove = v[i];
        let mut pos: usize = out.len();
        while pos > 0 && m.get_distance(&out[pos - 1]) < 0
            invariant
                0 <= pos <= out@.len(),
                forall|k: int| pos <= k < out@.len() ==> #[trigger] m.dist_spec(out@[k]) < 0,
            decreases pos,
        {
            pos = pos - 1;
        }
        proof {
            lemma_insert_by_line_at(m, out@, pos as int);
            assert(v@.take(i + 1).drop_last() =~= v@.take(i as int));
            assert(v@.take(i + 1).last() == v@[i as int]);
            lemma_insert_by_line_len(m, out@);
        }
        out.insert(pos, m);
        i = i + 1;
    }
    proof {
        assert(v@.take(v@.len() as int) =~= v@);
    }
    out
}

/// Law: the sorted moves are a rearrangement of the input, and stand in
/// line order: each element is at least as far along the line as the one
/// before it.
pub proof fn lemma_sort_by_line_ensures(s: Seq<FiveInRowMove>)
    ensures
        sort_by_line(s).to_multiset() =~= s.to_multiset(),
        line_adjacent_sorted(sort_by_line(s)),
    decreases s.len(),
{
    broadcast use vstd::seq_lib::group_to_multiset_ensures;

    if s.len() > 0 {
        lemma_sort_by_line_ensures(s.drop_last());
        lemma_insert_by_line_ensures(s.last(), sort_by_line(s.drop_last()));
        assert(s =~= s.drop_last().push(s.last()));
    }
}

proof fn lemma_insert_by_line_ensures(m: FiveInRowMove, s: Seq<FiveInRowMove>)
    requires
        line_adjacent_sorted(s),
    ensures
        insert_by_line(m, s).to_multiset() =~= s.to_multiset().insert(m),
        line_adjacent_sorted(insert_by_line(m, s)),
    decreases s.len(),
{
    broadcast use vstd::seq_lib::group_to_multiset_ensures;

    if s.len() == 0 {
        assert(insert_by_line(m, s) =~= Seq::empty().push(m));
    } else if m.dist_spec(s.last()) >= 0 {
        let r = s.push(m);
        assert forall|i: int| 0 <= i < r.len() - 1 implies #[trigger] r[i + 1].dist_spec(r[i]) >= 0
        by {
            if i + 1 < s.len() {
                assert(s[i + 1].dist_spec(s[i]) >= 0);
            }
        }
    } else {
        let inner = insert_by_line(m, s.drop_last());
        let r = inner.push(s.last());
        assert(line_adjacent_sorted(s.drop_last())) by {
            assert forall|i: int| 0 <= i < s.drop_last().len() - 1 implies #[trigger] s.drop_last()[
                i + 1
            ].dist_spec(s.drop_last()[i]) >= 0 by {
                assert(s[i + 1].dist_spec(s[i]) >= 0);
            }
        }
        lemma_insert_by_line_ensures(m, s.drop_last());
        lemma_insert_by_line_len(m, s.drop_last());
        assert(s.drop_last().push(s.last()) =~= s);
        assert(s.drop_last().to_multiset().insert(s.last()) =~= s.to_multiset());
        // the last element of `inner` is either m itself or the old last
        // element of s.drop_last(); either way it precedes s.last()
        if s.len() >= 2 {
            assert(s[(s.len() - 2) + 1].dist_spec(s[s.len() - 2]) >= 0);
            assert(s.drop_last().last() == s[s.len() - 2]);
        }
        lemma_insert_last_bound(m, s.drop_last(), s.last());
        assert forall|i: int| 0 <= i < r.len() - 1 implies #[trigger] r[i + 1].dist_spec(r[i]) >= 0
        by {
            if i + 1 < inner.len() {
                assert(inner[i + 1].dist_spec(inner[i]) >= 0);
            }
        }
    }
}

/// The last element of `insert_by_line(m, s)` is `m` or the last of `s`;
/// when `nxt` follows every element of `s` and also `m` in line order,
/// it follows the new last element too.
proof fn lemma_insert_last_bound(m: FiveInRowMove, s: Seq<FiveInRowMove>, nxt: FiveInRowMove)
    requires
        line_adjacent_sorted(s),
        m.dist_spec(nxt) < 0,
        s.len() > 0 ==> nxt.dist_spec(s.last()) >= 0,
    ensures
        nxt.dist_spec(insert_by_line(m, s).last()) >= 0,
    decreases s.len(),
{
    lemma_dist_antisym(m, nxt);
    if s.len() == 0 {
    } else if m.dist_spec(s.last()) >= 0 {
    } else {
    }
}

/// The signed line-distance is antisymmetric: `dist(a, b) == -dist(b, a)`.
pub proof fn lemma_dist_antisym(a: FiveInRowMove, b: FiveInRowMove)
    ensures
        a.dist_spec(b) == -b.dist_spec(a),
{
}

} // verus!
