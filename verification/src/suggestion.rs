//! The suggestion tree: a candidate move with the score of the position
//! it creates, and, below it, suggestions for the opponent's replies. The
//! deep score of a node propagates minimax-style: over the replies to our
//! own move the opponent picks what is worst for us, and over the replies
//! to the opponent's move we pick what is best.

use vstd::prelude::*;
use crate::error::Error;
use crate::mv::{FiveInRowMove, GameMove};
use crate::score::Score;

verus! {

use core::cmp::Ordering;

#[derive(Debug)]
pub struct Suggestion {
    pub mv: FiveInRowMove,
    pub score: Score,
    pub suggestions: Vec<Suggestion>,
    pub depth: u8,
}

/// The depth of a node one level above a child of depth `d`.
pub open spec fn next_depth(d: u8) -> u8 {
    if d == 255 {
        255
    } else {
        (d + 1) as u8
    }
}

/// The first index of a suggestion whose move equals `m`, or `-1`.
pub open spec fn first_root_match(s: Seq<Suggestion>, m: FiveInRowMove) -> int
    decreases s.len(),
{
    if s.len() == 0 {
        -1
    } else if s[0].mv == m {
        0
    } else {
        let r = first_root_match(s.drop_first(), m);
        if r == -1 {
            -1
        } else {
            1 + r
        }
    }
}

impl Suggestion {
    /// The minimax deep score: the shallow score at a leaf, otherwise the
    /// worst child score when the node's move is ours (the children are
    /// the opponent's replies), and the best child score when it is the
    /// opponent's.
    pub open spec fn deep_score_spec(self) -> Score
        decreases self, self.suggestions@.len() + 1,
    {
        if self.depth == 0 || self.suggestions@.len() == 0 {
            self.score
        } else {
            Suggestion::fold_deep(
                self.suggestions@,
                self.suggestions@.len() as int,
                self.mv.mine_spec(),
            )
        }
    }

    /// The pick among the deep scores of the first `k` children: their
    /// minimum when `take_min`, their maximum otherwise. The first of
    /// equal minima is kept, and the last of equal maxima.
    pub open spec fn fold_deep(s: Seq<Suggestion>, k: int, take_min: bool) -> Score
        decreases s, k,
    {
        if s.len() == 0 || k > s.len() {
            Score::Numeric(0)
        } else if k <= 1 {
            s[0].deep_score_spec()
        } else {
            let prev = Suggestion::fold_deep(s, k - 1, take_min);
            let cur = s[k - 1].deep_score_spec();
            if take_min {
                if cur.lt_spec(prev) {
                    cur
                } else {
                    prev
                }
            } else {
                if cur.lt_spec(prev) {
                    prev
                } else {
                    cur
                }
            }
        }
    }

    /// Both trees hold the same moves, scores and depths throughout.
    pub open spec fn tree_like(self, other: Suggestion) -> bool
        decreases self,
    {
        &&& self.mv == other.mv
        &&& self.score == other.score
        &&& self.depth == other.depth
        &&& trees_like(self.suggestions@, other.suggestions@)
    }

    /// Whether grafting `add` under the path `parents[idx..]` can succeed:
    /// each step of the path names an existing child.
    pub open spec fn graft_ok(self, parents: Seq<FiveInRowMove>, idx: int) -> bool
        decreases self, parents.len() - idx + 1,
    {
        if idx >= parents.len() {
            true
        } else {
            let j = first_root_match(self.suggestions@, parents[idx]);
            &&& j >= 0
            &&& j < self.suggestions@.len()
            &&& self.suggestions@[j].graft_ok(parents, idx + 1)
        }
    }

    /// `new` is `old` with `add` appended to the node the path
    /// `parents[idx..]` leads to, and the depths along the path raised.
    pub open spec fn grafted(
        self,
        new: Suggestion,
        parents: Seq<FiveInRowMove>,
        idx: int,
        add: Seq<Suggestion>,
    ) -> bool
        decreases self, parents.len() - idx + 1,
    {
        if idx >= parents.len() {
            &&& new.mv == self.mv
            &&& new.score == self.score
            &&& new.depth == (if self.depth >= 1 {
                self.depth
            } else {
                1
            })
            &&& new.suggestions@ == self.suggestions@ + add
        } else {
            let j = first_root_match(self.suggestions@, parents[idx]);
            &&& j >= 0
            &&& j < self.suggestions@.len()
            &&& new.mv == self.mv
            &&& new.score == self.score
            &&& new.suggestions@.len() == self.suggestions@.len()
            &&& forall|k: int|
                0 <= k < self.suggestions@.len() && k != j ==> new.suggestions@[k]
                    == self.suggestions@[k]
            &&& self.suggestions@[j].grafted(new.suggestions@[j], parents, idx + 1, add)
            &&& new.depth == next_depth(new.suggestions@[j].depth)
        }
    }

    /// A fresh leaf suggestion.
    pub fn new(mv: FiveInRowMove, score: Score) -> (r: Suggestion)
        ensures
            r.mv == mv,
            r.score == score,
            r.suggestions@ =~= Seq::<Suggestion>::empty(),
            r.depth == 0,
    {
        Suggestion { mv, score, suggestions: Vec::new(), depth: 0 }
    }

    pub fn get_move(&self) -> (r: &FiveInRowMove)
        ensures
            r == self.mv,
    {
        &self.mv
    }

    pub fn get_score(&self) -> (r: &Score)
        ensures
            r == self.score,
    {
        &self.score
    }

    pub fn get_suggestions(&self) -> (r: &Vec<Suggestion>)
        ensures
            r == self.suggestions,
    {
        &self.suggestions
    }

    /// The minimax deep score of the node.
    pub fn get_deep_score(&self) -> (r: Score)
        ensures
            r == self.deep_score_spec(),
        decreases *self,
    {
        let n: usize = self.suggestions.len();
        if self.depth == 0 || n == 0 {
            return self.score;
        }
        let take_min: bool = self.mv.is_mine();
        let mut best: Score = self.suggestions[0].get_deep_score();
        let mut k: usize = 1;
        while k < n
            invariant
                1 <= k <= n,
                n == self.suggestions@.len(),
                take_min == self.mv.mine_spec(),
                best == Suggestion::fold_deep(self.suggestions@, k as int, take_min),
            decreases n - k,
        {
            let cur: Score = self.suggestions[k].get_deep_score();
            let is_less: bool = matches!(cur.compare(&best), Ordering::Less);
            if take_min {
                if is_less {
                    best = cur;
                }
            } else {
                if !is_less {
                    best = cur;
                }
            }
            k = k + 1;
        }
        best
    }

    /// Grafts `add` under the node the path `parents` leads to: with an
    /// empty path the children are appended here; otherwise the unique
    /// child owning the path's head is descended into. A path step that
    /// names no child fails with `SuggestionComputationError` and leaves
    /// the tree as it was.
    pub fn add_suggestions(&mut self, parents: &Vec<FiveInRowMove>, add: Vec<Suggestion>) -> (r:
        Result<(), Error>)
        ensures
            old(self).graft_ok(parents@, 0) ==> r == Ok::<(), Error>(()) && old(self).grafted(
                *final(self),
                parents@,
                0,
                add@,
            ),
            !old(self).graft_ok(parents@, 0) ==> r == Err::<(), Error>(
                Error::SuggestionComputationError,
            ) && old(self).tree_like(*final(self)),
    {
        self.graft(parents, 0, add)
    }

    fn graft(&mut self, parents: &Vec<FiveInRowMove>, idx: usize, add: Vec<Suggestion>) -> (r:
        Result<(), Error>)
        requires
            idx <= parents@.len(),
        ensures
            old(self).graft_ok(parents@, idx as int) ==> r == Ok::<(), Error>(()) && old(
                self,
            ).grafted(*final(self), parents@, idx as int, add@),
            !old(self).graft_ok(parents@, idx as int) ==> r == Err::<(), Error>(
                Error::SuggestionComputationError,
            ) && old(self).tree_like(*final(self)),
        decreases parents@.len() - idx,
    {
        if idx >= parents.len() {
            let mut add = add;
            self.suggestions.append(&mut add);
            if self.depth < 1 {
                self.depth = 1;
            }
            proof {
                lemma_tree_like_refl(*self);
            }
            return Ok(());
        }
        let target: FiveInRowMove = parents[idx];
        let mut j: usize = 0;
        let n: usize = self.suggestions.len();
        while j < n && !(*self.suggestions[j].get_move() == target)
            invariant
                0 <= j <= n,
                n == self.suggestions@.len(),
                forall|k: int| 0 <= k < j ==> self.suggestions@[k].mv != target,
            decreases n - j,
        {
            j = j + 1;
        }
        proof {
            if j < n {
                lemma_first_root_match_at(self.suggestions@, target, j as int);
            } else {
                lemma_first_root_match_none(self.suggestions@, target);
            }
        }
        if j >= n {
            proof {
                lemma_tree_like_refl(*self);
            }
            return Err(Error::SuggestionComputationError);
        }
        let mut child: Suggestion = self.suggestions.remove(j);
        let ghost child0 = child;
        let res: Result<(), Error> = child.graft(parents, idx + 1, add);
        let child_depth: u8 = child.depth;
        self.suggestions.insert(j, child);
        proof {
            assert(self.suggestions@ =~= old(self).suggestions@.update(j as int, child));
        }
        match res {
            Ok(_) => {
                self.depth = if child_depth == 255 {
                    255
                } else {
                    child_depth + 1
                };
                proof {
                    assert forall|k: int|
                        0 <= k < old(self).suggestions@.len() && k != j implies self.suggestions@[k]
                        == old(self).suggestions@[k] by {}
                }
                Ok(())
            },
            Err(e) => {
                proof {
                    assert forall|k: int|
                        0 <= k < old(self).suggestions@.len() implies #[trigger] old(
                        self,
                    ).suggestions@[k].tree_like(self.suggestions@[k]) by {
                        if k != j {
                            lemma_tree_like_refl(old(self).suggestions@[k]);
                        }
                    }
                    lemma_trees_like_pointwise(old(self).suggestions@, self.suggestions@);
                }
                Err(e)
            },
        }
    }
}

/// The two forests pair up: equally long, with tree-like members.
pub open spec fn trees_like(a: Seq<Suggestion>, b: Seq<Suggestion>) -> bool
    decreases a,
{
    &&& a.len() == b.len()
    &&& (a.len() > 0 ==> a.last().tree_like(b.last()) && trees_like(a.drop_last(), b.drop_last()))
}

/// Every tree is tree-like to itself.
pub proof fn lemma_tree_like_refl(t: Suggestion)
    ensures
        t.tree_like(t),
    decreases t,
{
    lemma_trees_like_refl(t.suggestions@);
}

pub proof fn lemma_trees_like_refl(a: Seq<Suggestion>)
    ensures
        trees_like(a, a),
    decreases a,
{
    if a.len() > 0 {
        lemma_tree_like_refl(a.last());
        lemma_trees_like_refl(a.drop_last());
    }
}

/// Forests that pair up elementwise as tree-like are tree-like.
pub proof fn lemma_trees_like_pointwise(a: Seq<Suggestion>, b: Seq<Suggestion>)
    requires
        a.len() == b.len(),
        forall|i: int| 0 <= i < a.len() ==> #[trigger] a[i].tree_like(b[i]),
    ensures
        trees_like(a, b),
    decreases a,
{
    if a.len() > 0 {
        assert(a[a.len() - 1].tree_like(b[a.len() - 1]));
        lemma_trees_like_pointwise(a.drop_last(), b.drop_last());
    }
}

pub proof fn lemma_first_root_match_at(s: Seq<Suggestion>, m: FiveInRowMove, j: int)
    requires
        0 <= j < s.len(),
        s[j].mv == m,
        forall|k: int| 0 <= k < j ==> s[k].mv != m,
    ensures
        first_root_match(s, m) == j,
    decreases j,
{
    if j > 0 {
        assert(s[0].mv != m);
        lemma_first_root_match_at(s.drop_first(), m, j - 1);
    }
}

pub proof fn lemma_first_root_match_none(s: Seq<Suggestion>, m: FiveInRowMove)
    requires
        forall|k: int| 0 <= k < s.len() ==> s[k].mv != m,
    ensures
        first_root_match(s, m) == -1,
    decreases s.len(),
{
    if s.len() > 0 {
        lemma_first_root_match_none(s.drop_first(), m);
    }
}

impl PartialEq for Suggestion {
    fn eq(&self, other: &Suggestion) -> (r: bool) {
        matches!(self.get_deep_score().compare(&other.get_deep_score()), Ordering::Equal)
    }
}

impl vstd::std_specs::cmp::PartialEqSpecImpl for Suggestion {
    open spec fn obeys_eq_spec() -> bool {
        true
    }

    open spec fn eq_spec(&self, other: &Suggestion) -> bool {
        self.deep_score_spec().eq_spec_fn(other.deep_score_spec())
    }
}

impl PartialOrd for Suggestion {
    fn partial_cmp(&self, other: &Suggestion) -> (r: Option<Ordering>) {
        Some(self.get_deep_score().compare(&other.get_deep_score()))
    }
}

impl vstd::std_specs::cmp::PartialOrdSpecImpl for Suggestion {
    open spec fn obeys_partial_cmp_spec() -> bool {
        true
    }

    open spec fn partial_cmp_spec(&self, other: &Suggestion) -> Option<Ordering> {
        Some(self.deep_score_spec().cmp_spec(other.deep_score_spec()))
    }
}


/// Whether grafting under the nonempty path `parents` can succeed on a
/// root forest: the path's head names a root, and the rest of the path a
/// chain of children below it.
pub open spec fn forest_graft_ok(ts: Seq<Suggestion>, parents: Seq<FiveInRowMove>) -> bool
    recommends
        parents.len() > 0,
{
    let j = first_root_match(ts, parents[0]);
    &&& j >= 0
    &&& j < ts.len()
    &&& ts[j].graft_ok(parents, 1)
}

/// `new` is the forest `ts` with `add` appended under the node the
/// nonempty path `parents` leads to.
pub open spec fn forest_grafted(
    ts: Seq<Suggestion>,
    new: Seq<Suggestion>,
    parents: Seq<FiveInRowMove>,
    add: Seq<Suggestion>,
) -> bool
    recommends
        parents.len() > 0,
{
    let j = first_root_match(ts, parents[0]);
    &&& new.len() == ts.len()
    &&& forall|k: int| 0 <= k < ts.len() && k != j ==> new[k] == ts[k]
    &&& 0 <= j < ts.len()
    &&& ts[j].grafted(new[j], parents, 1, add)
}

impl Suggestion {
    /// Grafts `add` under the root forest at the nonempty path `parents`:
    /// the root owning the path's head is found and descended into. A
    /// path step that names no node fails with
    /// `SuggestionComputationError` and leaves the forest as it was.
    pub fn extend_suggestions(
        suggestions: &mut Vec<Suggestion>,
        parents: &Vec<FiveInRowMove>,
        add: Vec<Suggestion>,
    ) -> (r: Result<(), Error>)
        requires
            parents@.len() > 0,
        ensures
            forest_graft_ok(old(suggestions)@, parents@) ==> r == Ok::<(), Error>(())
                && forest_grafted(old(suggestions)@, final(suggestions)@, parents@, add@),
            !forest_graft_ok(old(suggestions)@, parents@) ==> r == Err::<(), Error>(
                Error::SuggestionComputationError,
            ) && trees_like(old(suggestions)@, final(suggestions)@),
    {
        let target: FiveInRowMove = parents[0];
        let mut j: usize = 0;
        let n: usize = suggestions.len();
        while j < n && !(*suggestions[j].get_move() == target)
            invariant
                0 <= j <= n,
                n == suggestions@.len(),
                suggestions@ == old(suggestions)@,
                forall|k: int| 0 <= k < j ==> suggestions@[k].mv != target,
            decreases n - j,
        {
            j = j + 1;
        }
        proof {
            if j < n {
                lemma_first_root_match_at(suggestions@, target, j as int);
            } else {
                lemma_first_root_match_none(suggestions@, target);
            }
        }
        if j >= n {
            proof {
                lemma_trees_like_refl(suggestions@);
            }
            return Err(Error::SuggestionComputationError);
        }
        let mut child: Suggestion = suggestions.remove(j);
        let res: Result<(), Error> = child.graft(parents, 1, add);
        suggestions.insert(j, child);
        proof {
            assert(suggestions@ =~= old(suggestions)@.update(j as int, child));
        }
        match res {
            Ok(_) => Ok(()),
            Err(e) => {
                proof {
                    assert forall|k: int| 0 <= k < old(suggestions)@.len() implies #[trigger] old(
                        suggestions,
                    )@[k].tree_like(suggestions@[k]) by {
                        if k != j {
                            lemma_tree_like_refl(old(suggestions)@[k]);
                        }
                    }
                    lemma_trees_like_pointwise(old(suggestions)@, suggestions@);
                }
                Err(e)
            },
        }
    }

    /// An identical tree with its own storage.
    pub fn clone_tree(&self) -> (r: Suggestion)
        ensures
            self.tree_like(r),
        decreases *self,
    {
        let mut kids: Vec<Suggestion> = Vec::new();
        let mut i: usize = 0;
        while i < self.suggestions.len()
            invariant
                0 <= i <= self.suggestions@.len(),
                kids@.len() == i,
                forall|k: int|
                    0 <= k < i ==> #[trigger] self.suggestions@[k].tree_like(kids@[k]),
            decreases self.suggestions@.len() - i,
        {
            let kid: Suggestion = self.suggestions[i].clone_tree();
            kids.push(kid);
            i = i + 1;
        }
        proof {
            lemma_trees_like_pointwise(self.suggestions@, kids@);
        }
        Suggestion { mv: self.mv, score: self.score, suggestions: kids, depth: self.depth }
    }
}


} // verus!
