//! The mathematics of the search: a game as a set of positions with legal
//! moves, the minimax value of a position, the value that alpha-beta search
//! computes for it, and the proof that pruning never changes the answer.

use crate::evaluation::{balance_of, lemma_material_bounds, Piece, Player, BOARD_SQUARES};
use vstd::prelude::*;

verus! {

/// A game, as far as the search can tell: which positions end the game, what
/// stands on the board, which moves are legal, and where each move leads.
/// The order of `moves` is the order in which the search tries them.
#[verifier::reject_recursive_types(P)]
#[verifier::reject_recursive_types(M)]
pub ghost struct Game<P, M> {
    pub ended: spec_fn(P) -> bool,
    pub pieces: spec_fn(P) -> Seq<Piece>,
    pub moves: spec_fn(P) -> Seq<M>,
    pub play: spec_fn(P, M) -> P,
}

/// The score that stands for "nothing found yet": the least score for the
/// side that wants a high one, the greatest for the side that wants a low one.
pub open spec fn worst_for(maximising: bool) -> int {
    if maximising {
        i32::MIN as int
    } else {
        i32::MAX as int
    }
}

/// The greater of two scores.
pub open spec fn larger(a: int, b: int) -> int {
    if a >= b {
        a
    } else {
        b
    }
}

/// The lesser of two scores.
pub open spec fn smaller(a: int, b: int) -> int {
    if a <= b {
        a
    } else {
        b
    }
}

/// The better of two scores for the side to move at a node.
pub open spec fn better_of(maximising: bool, a: int, b: int) -> int {
    if maximising {
        larger(a, b)
    } else {
        smaller(a, b)
    }
}

/// Whether `v` is a score: a value of `i32`.
pub open spec fn is_score(v: int) -> bool {
    i32::MIN <= v <= i32::MAX
}

/// What a node knows after some of its moves: the window still open, the best
/// score so far, and whether the window has closed.
pub ghost struct Window {
    pub alpha: int,
    pub beta: int,
    pub best: int,
    pub cut: bool,
}

impl Window {
    /// The window a node starts with.
    pub open spec fn fresh(alpha: int, beta: int, maximising: bool) -> Window {
        Window { alpha, beta, best: worst_for(maximising), cut: false }
    }

    /// Takes in the score `v` of one more move. A maximising node raises
    /// `best` and `alpha`, a minimising node lowers `best` and `beta`; the
    /// window is closed once the two bounds meet.
    pub open spec fn absorb(self, maximising: bool, v: int) -> Window {
        if maximising {
            let alpha = larger(self.alpha, v);
            Window { alpha, beta: self.beta, best: larger(self.best, v), cut: alpha >= self.beta }
        } else {
            let beta = smaller(self.beta, v);
            Window { alpha: self.alpha, beta, best: smaller(self.best, v), cut: beta <= self.alpha }
        }
    }
}

/// The root's pick after some of its moves: the greatest score seen and the
/// first move that reached it.
pub ghost struct Choice<M> {
    pub score: int,
    pub best: Option<M>,
}

impl<M> Choice<M> {
    /// The pick before any move: none, at the least score there is.
    pub open spec fn fresh() -> Choice<M> {
        Choice { score: i32::MIN as int, best: None }
    }

    /// Takes in move `m` with score `v`: it replaces the pick only if its
    /// score is strictly greater.
    pub open spec fn absorb(self, m: M, v: int) -> Choice<M> {
        if v > self.score {
            Choice { score: v, best: Some(m) }
        } else {
            self
        }
    }
}

impl<P, M> Game<P, M> {
    /// No position holds more pieces than the board has squares.
    pub open spec fn wf(self) -> bool {
        forall|p: P| #[trigger] (self.pieces)(p).len() <= BOARD_SQUARES
    }

    /// The score of a position taken by itself: White's material less
    /// Black's, whoever is to move.
    pub open spec fn score(self, p: P) -> int {
        balance_of((self.pieces)(p))
    }

    /// The position reached from `p` by its `i`-th legal move.
    pub open spec fn child(self, p: P, i: int) -> P {
        (self.play)(p, (self.moves)(p)[i])
    }

    /// The minimax value of `p` searched `depth` plies deep. At depth zero,
    /// or where the game has ended, it is the score of `p`; otherwise the
    /// best, for the side to move, of the values of the positions one move
    /// away, searched one ply less deep by the other side.
    pub open spec fn minimax(self, p: P, depth: int, maximising: bool) -> int
        decreases depth, (self.moves)(p).len() + 1,
    {
        if depth <= 0 || (self.ended)(p) {
            self.score(p)
        } else {
            self.minimax_prefix(p, depth, maximising, (self.moves)(p).len())
        }
    }

    /// The best minimax value among the first `k` moves of `p`.
    pub open spec fn minimax_prefix(self, p: P, depth: int, maximising: bool, k: nat) -> int
        decreases depth, k,
    {
        if k == 0 || depth <= 0 {
            worst_for(maximising)
        } else {
            better_of(
                maximising,
                self.minimax_prefix(p, depth, maximising, (k - 1) as nat),
                self.minimax(self.child(p, k - 1), depth - 1, !maximising),
            )
        }
    }

    /// The value alpha-beta search returns for `p`: as `minimax`, but each
    /// move is searched inside the window left by the moves before it, and
    /// the moves after the window has closed are not searched at all.
    pub open spec fn alpha_beta(
        self,
        p: P,
        depth: int,
        alpha: int,
        beta: int,
        maximising: bool,
    ) -> int
        decreases depth, (self.moves)(p).len() + 1,
    {
        if depth <= 0 || (self.ended)(p) {
            self.score(p)
        } else {
            self.scan(p, depth, alpha, beta, maximising, (self.moves)(p).len()).best
        }
    }

    /// The state of the node `p` after alpha-beta search has gone through its
    /// first `k` moves, or through as many of them as it took to close the
    /// window.
    pub open spec fn scan(
        self,
        p: P,
        depth: int,
        alpha: int,
        beta: int,
        maximising: bool,
        k: nat,
    ) -> Window
        decreases depth, k,
    {
        if k == 0 || depth <= 0 {
            Window::fresh(alpha, beta, maximising)
        } else {
            let w = self.scan(p, depth, alpha, beta, maximising, (k - 1) as nat);
            if w.cut {
                w
            } else {
                w.absorb(
                    maximising,
                    self.alpha_beta(self.child(p, k - 1), depth - 1, w.alpha, w.beta, !maximising),
                )
            }
        }
    }

    /// The score the root gives its `i`-th move: the alpha-beta value of the
    /// position after it, one ply less deep, with the full window and the
    /// opponent to move.
    pub open spec fn reply_score(self, p: P, depth: int, i: int) -> int {
        self.alpha_beta(self.child(p, i), depth - 1, i32::MIN as int, i32::MAX as int, false)
    }

    /// The root's pick among the first `k` moves of `p`.
    pub open spec fn choice(self, p: P, depth: int, k: nat) -> Choice<M>
        decreases k,
    {
        if k == 0 {
            Choice::fresh()
        } else {
            self.choice(p, depth, (k - 1) as nat).absorb(
                (self.moves)(p)[k - 1],
                self.reply_score(p, depth, k - 1),
            )
        }
    }

    /// The root's pick among the first `k` moves of `p` had it scored each
    /// move by a minimax search of the whole tree below it.
    pub open spec fn plain_choice(self, p: P, depth: int, k: nat) -> Choice<M>
        decreases k,
    {
        if k == 0 {
            Choice::fresh()
        } else {
            self.plain_choice(p, depth, (k - 1) as nat).absorb(
                (self.moves)(p)[k - 1],
                self.minimax(self.child(p, k - 1), depth - 1, false),
            )
        }
    }

    /// The move the search selects at `p`: the first legal move whose score
    /// is greater than that of every move before it and not less than that of
    /// any move after it. `None` if there is no legal move.
    pub open spec fn best_move(self, p: P, depth: int) -> Option<M> {
        self.choice(p, depth, (self.moves)(p).len()).best
    }

    /// The score of any position is a score well inside `i32`.
    pub proof fn lemma_score_in_range(self, p: P)
        requires
            self.wf(),
        ensures
            is_score(self.score(p)),
    {
        lemma_material_bounds((self.pieces)(p), Player::White);
        lemma_material_bounds((self.pieces)(p), Player::Black);
    }

    /// Minimax values are scores.
    pub proof fn lemma_minimax_in_range(self, p: P, depth: int, maximising: bool)
        requires
            self.wf(),
        ensures
            is_score(self.minimax(p, depth, maximising)),
        decreases depth, (self.moves)(p).len() + 1,
    {
        if depth <= 0 || (self.ended)(p) {
            self.lemma_score_in_range(p);
        } else {
            self.lemma_minimax_prefix_in_range(p, depth, maximising, (self.moves)(p).len());
        }
    }

    /// The best value among the first `k` moves is a score.
    pub proof fn lemma_minimax_prefix_in_range(self, p: P, depth: int, maximising: bool, k: nat)
        requires
            self.wf(),
        ensures
            is_score(self.minimax_prefix(p, depth, maximising, k)),
        decreases depth, k,
    {
        if k == 0 || depth <= 0 {
        } else {
            self.lemma_minimax_prefix_in_range(p, depth, maximising, (k - 1) as nat);
            self.lemma_minimax_in_range(self.child(p, k - 1), depth - 1, !maximising);
        }
    }

    /// More moves can only improve the best value for the side to move.
    pub proof fn lemma_minimax_prefix_monotonic(
        self,
        p: P,
        depth: int,
        maximising: bool,
        j: nat,
        k: nat,
    )
        requires
            j <= k,
            depth > 0,
        ensures
            maximising ==> self.minimax_prefix(p, depth, maximising, j) <= self.minimax_prefix(
                p,
                depth,
                maximising,
                k,
            ),
            !maximising ==> self.minimax_prefix(p, depth, maximising, j) >= self.minimax_prefix(
                p,
                depth,
                maximising,
                k,
            ),
        decreases k,
    {
        if j < k {
            self.lemma_minimax_prefix_monotonic(p, depth, maximising, j, (k - 1) as nat);
        }
    }
}

/// How the value `r` that a search inside the window from `alpha` to `beta`
/// returned relates to the true value `v`: inside the window it is exact; at
/// or below `alpha` it is an upper bound of `v`; at or above `beta` it is a
/// lower bound.
pub open spec fn bounds_value(r: int, v: int, alpha: int, beta: int) -> bool {
    &&& r <= alpha ==> v <= r
    &&& alpha < r < beta ==> v == r
    &&& r >= beta ==> v >= r
}

/// What holds of a node after any number of its moves, where `v` is the best
/// minimax value among the same moves and the node began with the window from
/// `alpha` to `beta`.
pub open spec fn scan_holds(w: Window, v: int, alpha: int, beta: int, maximising: bool) -> bool {
    &&& is_score(w.alpha)
    &&& is_score(w.beta)
    &&& is_score(w.best)
    &&& w.cut == (w.alpha >= w.beta)
    &&& bounds_value(w.best, v, alpha, beta)
    &&& if maximising {
        &&& w.beta == beta
        &&& w.alpha == larger(alpha, w.best)
    } else {
        &&& w.alpha == alpha
        &&& w.beta == smaller(beta, w.best)
    }
}

impl<P, M> Game<P, M> {
    /// After any number of moves the state of an alpha-beta node is in step
    /// with the minimax value of the same moves.
    pub proof fn lemma_scan(
        self,
        p: P,
        depth: int,
        alpha: int,
        beta: int,
        maximising: bool,
        k: nat,
    )
        requires
            self.wf(),
            depth > 0,
            i32::MIN <= alpha < beta <= i32::MAX,
        ensures
            scan_holds(
                self.scan(p, depth, alpha, beta, maximising, k),
                self.minimax_prefix(p, depth, maximising, k),
                alpha,
                beta,
                maximising,
            ),
        decreases depth, k,
    {
        if k > 0 {
            let j = (k - 1) as nat;
            let w = self.scan(p, depth, alpha, beta, maximising, j);
            self.lemma_scan(p, depth, alpha, beta, maximising, j);
            self.lemma_minimax_prefix_monotonic(p, depth, maximising, j, k);
            self.lemma_minimax_prefix_in_range(p, depth, maximising, j);
            if !w.cut {
                self.lemma_alpha_beta(
                    self.child(p, k - 1),
                    depth - 1,
                    w.alpha,
                    w.beta,
                    !maximising,
                );
            }
        }
    }

    /// The value alpha-beta search returns is a score, and it is the minimax
    /// value wherever that lies inside the window; outside the window it
    /// lies on the same side as the minimax value, and no further out.
    pub proof fn lemma_alpha_beta(self, p: P, depth: int, alpha: int, beta: int, maximising: bool)
        requires
            self.wf(),
            i32::MIN <= alpha < beta <= i32::MAX,
        ensures
            is_score(self.alpha_beta(p, depth, alpha, beta, maximising)),
            is_score(self.minimax(p, depth, maximising)),
            bounds_value(
                self.alpha_beta(p, depth, alpha, beta, maximising),
                self.minimax(p, depth, maximising),
                alpha,
                beta,
            ),
        decreases depth, (self.moves)(p).len() + 1,
    {
        self.lemma_minimax_in_range(p, depth, maximising);
        if depth <= 0 || (self.ended)(p) {
        } else {
            self.lemma_scan(p, depth, alpha, beta, maximising, (self.moves)(p).len());
        }
    }

    /// Pruning is exact: with the full window, alpha-beta search returns the
    /// same value as a minimax search of the whole tree to the same depth.
    pub proof fn theorem_pruning_is_exact(self, p: P, depth: int, maximising: bool)
        requires
            self.wf(),
        ensures
            self.alpha_beta(p, depth, i32::MIN as int, i32::MAX as int, maximising)
                == self.minimax(p, depth, maximising),
    {
        self.lemma_alpha_beta(p, depth, i32::MIN as int, i32::MAX as int, maximising);
    }

    /// The score the root gives a move is the minimax value of the position
    /// after it, with the opponent to move and one ply less to go.
    pub proof fn lemma_reply_score_is_minimax(self, p: P, depth: int, i: int)
        requires
            self.wf(),
        ensures
            self.reply_score(p, depth, i) == self.minimax(self.child(p, i), depth - 1, false),
            is_score(self.reply_score(p, depth, i)),
    {
        self.lemma_alpha_beta(self.child(p, i), depth - 1, i32::MIN as int, i32::MAX as int, false);
    }

    /// Pruning changes no pick: after any number of moves the root has
    /// picked what it would have picked had every move been scored by a
    /// minimax search of the whole tree below it.
    pub proof fn theorem_pruning_changes_no_choice(self, p: P, depth: int, k: nat)
        requires
            self.wf(),
        ensures
            self.choice(p, depth, k) == self.plain_choice(p, depth, k),
        decreases k,
    {
        if k > 0 {
            self.theorem_pruning_changes_no_choice(p, depth, (k - 1) as nat);
            self.lemma_reply_score_is_minimax(p, depth, k - 1);
        }
    }

    /// Whether the pick `c` rests on move `i`: it is that move, at that
    /// move's score, which no move before it reached.
    pub open spec fn is_pick(self, p: P, depth: int, c: Choice<M>, i: int) -> bool {
        &&& c.best == Some((self.moves)(p)[i])
        &&& self.reply_score(p, depth, i) == c.score
        &&& forall|j: int| 0 <= j < i ==> #[trigger] self.reply_score(p, depth, j) < c.score
    }

    /// What the root has picked after `k` moves: the greatest score among
    /// them, or the least score there is if none exceeds it, and the first
    /// move that reached it.
    pub proof fn lemma_choice(self, p: P, depth: int, k: nat)
        requires
            self.wf(),
            k <= (self.moves)(p).len(),
        ensures
            ({
                let c = self.choice(p, depth, k);
                &&& is_score(c.score)
                &&& forall|j: int|
                    0 <= j < k ==> #[trigger] self.reply_score(p, depth, j) <= c.score
                &&& c.best is None <==> c.score == i32::MIN
                &&& c.best is Some ==> exists|i: int|
                    0 <= i < k && #[trigger] self.is_pick(p, depth, c, i)
            }),
        decreases k,
    {
        if k > 0 {
            let j = (k - 1) as nat;
            let c0 = self.choice(p, depth, j);
            let c = self.choice(p, depth, k);
            self.lemma_choice(p, depth, j);
            self.lemma_reply_score_is_minimax(p, depth, k - 1);
            if self.reply_score(p, depth, k - 1) > c0.score {
                assert(self.is_pick(p, depth, c, k - 1));
            } else if c0.best is Some {
                let i = choose|i: int| 0 <= i < j && #[trigger] self.is_pick(p, depth, c0, i);
                assert(self.is_pick(p, depth, c, i));
            }
        }
    }

    /// With no legal move the search selects none.
    pub proof fn theorem_no_move_no_choice(self, p: P, depth: int)
        requires
            (self.moves)(p).len() == 0,
        ensures
            self.best_move(p, depth) is None,
    {
    }

    /// The move the search selects is a legal move of the position, and no
    /// other legal move leads to a position of greater minimax value for the
    /// side that moves; of the moves that lead to the greatest, it is the
    /// first.
    pub proof fn theorem_best_move_is_best(self, p: P, depth: int)
        requires
            self.wf(),
            self.best_move(p, depth) is Some,
        ensures
            exists|i: int|
                {
                    &&& 0 <= i < (self.moves)(p).len()
                    &&& self.best_move(p, depth) == Some(#[trigger] (self.moves)(p)[i])
                    &&& forall|j: int|
                        0 <= j < (self.moves)(p).len() ==> #[trigger] self.minimax(
                            self.child(p, j),
                            depth - 1,
                            false,
                        ) <= self.minimax(self.child(p, i), depth - 1, false)
                    &&& forall|j: int|
                        0 <= j < i ==> #[trigger] self.minimax(self.child(p, j), depth - 1, false)
                            < self.minimax(self.child(p, i), depth - 1, false)
                },
    {
        let n = (self.moves)(p).len();
        let c = self.choice(p, depth, n);
        self.lemma_choice(p, depth, n);
        let i = choose|i: int| 0 <= i < n && #[trigger] self.is_pick(p, depth, c, i);
        self.lemma_reply_score_is_minimax(p, depth, i);
        assert forall|j: int| 0 <= j < n implies #[trigger] self.minimax(
            self.child(p, j),
            depth - 1,
            false,
        ) <= self.minimax(self.child(p, i), depth - 1, false) by {
            self.lemma_reply_score_is_minimax(p, depth, j);
        }
        assert forall|j: int| 0 <= j < i implies #[trigger] self.minimax(
            self.child(p, j),
            depth - 1,
            false,
        ) < self.minimax(self.child(p, i), depth - 1, false) by {
            self.lemma_reply_score_is_minimax(p, depth, j);
        }
    }

    /// The search selects no move exactly when every legal move leads to a
    /// position whose minimax value is the least score there is.
    pub proof fn theorem_no_choice_iff_all_lost(self, p: P, depth: int)
        requires
            self.wf(),
        ensures
            self.best_move(p, depth) is None <==> forall|j: int|
                0 <= j < (self.moves)(p).len() ==> #[trigger] self.minimax(
                    self.child(p, j),
                    depth - 1,
                    false,
                ) == i32::MIN,
    {
        let n = (self.moves)(p).len();
        let c = self.choice(p, depth, n);
        self.lemma_choice(p, depth, n);
        if c.best is None {
            assert forall|j: int| 0 <= j < n implies #[trigger] self.minimax(
                self.child(p, j),
                depth - 1,
                false,
            ) == i32::MIN by {
                self.lemma_reply_score_is_minimax(p, depth, j);
            }
        } else {
            let i = choose|i: int| 0 <= i < n && #[trigger] self.is_pick(p, depth, c, i);
            self.lemma_reply_score_is_minimax(p, depth, i);
        }
    }
}

} // verus!
