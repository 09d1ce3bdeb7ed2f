//! The search machine run against a board that does as it is told.
//!
//! A caller that answers every request truthfully and plays and takes back
//! moves as asked is modelled here, and it is proved that the machine then
//! comes to an end, selects the move that the mathematical definition of the
//! search selects, and leaves the board as it found it.

use crate::game::Game;
use crate::search::{Action, EventView, FrameView, Goal, Node, PhaseView, SearchView};
use vstd::prelude::*;

verus! {

/// A search under way on a board. The board is the line of positions from
/// the one the search began at to the current one, which is last: playing a
/// move adds the position it leads to, taking a move back removes it.
pub ghost struct Play<P, M> {
    pub board: Seq<P>,
    pub search: SearchView<M>,
}

impl<P, M> Game<P, M> {
    /// What a truthful caller reports after `action` on `board`.
    pub open spec fn report(self, board: Seq<P>, action: Action<M>) -> EventView<M> {
        match action {
            Action::ListMoves => EventView::Moves((self.moves)(board.last())),
            Action::CheckEnded => EventView::Ended((self.ended)(board.last())),
            Action::ReadPieces => EventView::Pieces((self.pieces)(board.last())),
            Action::Apply(_) => EventView::Applied,
            Action::Undo | Action::Done(_) | Action::Scored(_) => EventView::Undone,
        }
    }

    /// The board after `action` was carried out on `board`.
    pub open spec fn carry_out(self, board: Seq<P>, action: Action<M>) -> Seq<P> {
        match action {
            Action::Apply(m) => board.push((self.play)(board.last(), m)),
            Action::Undo => board.drop_last(),
            _ => board,
        }
    }

    /// One round: the caller carries out the request of the search and the
    /// search takes in the report.
    pub open spec fn round(self, play: Play<P, M>) -> Play<P, M> {
        let action = play.search.request();
        Play {
            board: self.carry_out(play.board, action),
            search: play.search.step(self.report(play.board, action)),
        }
    }

    /// `n` rounds, or as many as it takes the search to finish.
    pub open spec fn run(self, play: Play<P, M>, n: nat) -> Play<P, M>
        decreases n,
    {
        if n == 0 || play.search.is_over() {
            play
        } else {
            self.run(self.round(play), (n - 1) as nat)
        }
    }

    /// On the board of a truthful caller, taking back a move just played
    /// gives the board as it was before the move.
    pub proof fn theorem_take_back_restores_board(self, board: Seq<P>, m: M)
        ensures
            self.carry_out(self.carry_out(board, Action::Apply(m)), Action::Undo) == board,
    {
    }

    /// Running `a + b` rounds is running `a` rounds and then `b` more.
    pub proof fn lemma_run_split(self, play: Play<P, M>, a: nat, b: nat)
        ensures
            self.run(play, a + b) == self.run(self.run(play, a), b),
        decreases a,
    {
        if a == 0 {
        } else if play.search.is_over() {
        } else {
            self.lemma_run_split(self.round(play), (a - 1) as nat, b);
        }
    }

    /// One round and then `n` more.
    pub proof fn lemma_run_round(self, play: Play<P, M>, n: nat)
        requires
            !play.search.is_over(),
        ensures
            self.run(play, n + 1) == self.run(self.round(play), n),
    {
    }

    /// Once the window of a node has closed, further moves change nothing.
    pub proof fn lemma_cut_is_final(
        self,
        p: P,
        depth: int,
        alpha: int,
        beta: int,
        maximising: bool,
        j: nat,
        k: nat,
    )
        requires
            j <= k,
            self.scan(p, depth, alpha, beta, maximising, j).cut,
        ensures
            self.scan(p, depth, alpha, beta, maximising, k) == self.scan(
                p,
                depth,
                alpha,
                beta,
                maximising,
                j,
            ),
        decreases k,
    {
        if j < k {
            self.lemma_cut_is_final(p, depth, alpha, beta, maximising, j, (k - 1) as nat);
        }
    }

    /// The alpha-beta value of the position `p` searched as `node` says.
    pub open spec fn value(self, p: P, node: Node) -> int {
        self.alpha_beta(p, node.depth, node.alpha, node.beta, node.maximising)
    }

    /// From the moment a position other than the root of a search for the
    /// best move is in front of the search, the search arrives, with the
    /// board and the stack as they were, at handing up the alpha-beta value
    /// of the position, for the depth, window and side that the search has
    /// in front of it.
    proof fn lemma_visit(self, play: Play<P, M>) -> (n: nat)
        requires
            play.board.len() > 0,
            play.search.stack.len() > 0 || play.search.goal is Score,
            play.search == play.search.enter(),
        ensures
            self.run(play, n) == (Play {
                board: play.board,
                search: play.search.hand_up(self.value(play.board.last(), play.search.ahead())),
            }),
        decreases play.search.ahead().depth, (self.moves)(play.board.last()).len() + 1,
    {
        let s = play.search;
        if s.ahead().depth <= 0 {
            // No plies are left: the pieces are read and the position is scored.
            assert(self.run(play, 1) == self.run(self.round(play), 0));
            1
        } else if (self.ended)(play.board.last()) {
            // The game has ended here: once that is known, the same.
            let asked = Play {
                board: play.board,
                search: SearchView { phase: PhaseView::AwaitPieces, ..s },
            };
            assert(self.run(asked, 1) == self.run(self.round(asked), 0));
            self.lemma_run_round(play, 1);
            2
        } else {
            // The game goes on: the moves are listed, a node is opened on
            // them, and the node goes through its moves.
            let asked = Play {
                board: play.board,
                search: SearchView { phase: PhaseView::AwaitMoves, ..s },
            };
            let frame = FrameView::open(s.ahead(), (self.moves)(play.board.last()));
            let rest = self.lemma_children(play.board, s.goal, s.stack, frame);
            self.lemma_run_round(asked, rest);
            self.lemma_run_round(play, rest + 1);
            rest + 2
        }
    }

    /// From a node, other than the root of a search for the best move, that
    /// has gone through some of its moves, the search goes through the rest,
    /// or as many as it takes to close the window, and arrives, with the
    /// board as it was and the node gone from the stack, at handing up the
    /// node's alpha-beta value.
    proof fn lemma_children(
        self,
        board: Seq<P>,
        goal: Goal,
        stack: Seq<FrameView<M>>,
        frame: FrameView<M>,
    ) -> (n: nat)
        requires
            board.len() > 0,
            stack.len() > 0 || goal is Score,
            !(self.ended)(board.last()),
            ({
                let node = (SearchView { goal, stack, phase: PhaseView::AwaitMoves }).ahead();
                &&& node.depth > 0
                &&& frame.depth == node.depth
                &&& frame.maximising == node.maximising
                &&& frame.window() == self.scan(
                    board.last(),
                    node.depth,
                    node.alpha,
                    node.beta,
                    node.maximising,
                    frame.next as nat,
                )
            }),
            frame.moves == (self.moves)(board.last()),
            0 <= frame.next <= frame.moves.len(),
        ensures
            self.run(
                Play {
                    board,
                    search: SearchView {
                        goal,
                        stack: stack.push(frame),
                        phase: PhaseView::AwaitMoves,
                    }.advance(),
                },
                n,
            ) == (Play {
                board,
                search: (SearchView { goal, stack, phase: PhaseView::AwaitMoves }).hand_up(
                    self.value(
                        board.last(),
                        (SearchView { goal, stack, phase: PhaseView::AwaitMoves }).ahead(),
                    ),
                ),
            }),
        decreases frame.depth, frame.moves.len() - frame.next,
    {
        let p = board.last();
        let node = (SearchView { goal, stack, phase: PhaseView::AwaitMoves }).ahead();
        let pushed = SearchView { goal, stack: stack.push(frame), phase: PhaseView::AwaitMoves };
        let play = Play { board, search: pushed.advance() };
        assert(pushed.stack.drop_last() =~= stack);
        if !frame.live() {
            // The node is done. If its window has closed, the moves that are
            // left would not have changed its value.
            if frame.cut {
                self.lemma_cut_is_final(
                    p,
                    node.depth,
                    node.alpha,
                    node.beta,
                    node.maximising,
                    frame.next as nat,
                    frame.moves.len(),
                );
            }
            0
        } else {
            // The next move is played, the position it leads to is visited,
            // the move is taken back, and the node takes in the value.
            let child = (self.play)(p, frame.moves[frame.next]);
            let entered = Play { board: board.push(child), search: play.search.enter() };
            let visit = self.lemma_visit(entered);
            let v = self.value(child, frame.below());
            let returned = Play { board: entered.board, search: entered.search.hand_up(v) };
            let merged = frame.absorb(v);
            assert(entered.board.drop_last() =~= board);
            assert(merged.window() == self.scan(
                p,
                node.depth,
                node.alpha,
                node.beta,
                node.maximising,
                (frame.next + 1) as nat,
            ));
            let rest = self.lemma_children(board, goal, stack, merged);
            self.lemma_run_round(returned, rest);
            self.lemma_run_split(entered, visit, rest + 1);
            self.lemma_run_round(play, visit + rest + 1);
            visit + rest + 2
        }
    }

    /// From the root of a search for the best move that has gone through
    /// some of its moves, the search goes through the rest and finishes,
    /// with the board as it was, on the move that the definition of the
    /// search selects.
    proof fn lemma_root_children(
        self,
        board: Seq<P>,
        depth: i32,
        frame: FrameView<M>,
    ) -> (n: nat)
        requires
            board.len() > 0,
            frame.depth == depth,
            frame.maximising,
            frame.alpha == i32::MIN,
            frame.beta == i32::MAX,
            !frame.cut,
            frame.moves == (self.moves)(board.last()),
            0 <= frame.next <= frame.moves.len(),
            frame.choice() == self.choice(board.last(), depth as int, frame.next as nat),
        ensures
            self.run(
                Play {
                    board,
                    search: SearchView {
                        goal: Goal::Select { depth },
                        stack: seq![frame],
                        phase: PhaseView::AwaitMoves,
                    }.advance(),
                },
                n,
            ) == (Play {
                board,
                search: SearchView {
                    goal: Goal::Select { depth },
                    stack: Seq::empty(),
                    phase: PhaseView::Finished(self.best_move(board.last(), depth as int)),
                },
            }),
        decreases frame.moves.len() - frame.next,
    {
        let p = board.last();
        let pushed = SearchView {
            goal: Goal::Select { depth },
            stack: seq![frame],
            phase: PhaseView::AwaitMoves,
        };
        let play = Play { board, search: pushed.advance() };
        if !frame.live() {
            0
        } else {
            // The next move is played, the position it leads to is visited,
            // the move is taken back, and the root takes in the value.
            let child = (self.play)(p, frame.moves[frame.next]);
            let entered = Play { board: board.push(child), search: play.search.enter() };
            let visit = self.lemma_visit(entered);
            let v = self.reply_score(p, depth as int, frame.next);
            let returned = Play { board: entered.board, search: entered.search.hand_up(v) };
            let merged = frame.absorb_at_root(v);
            assert(entered.board.drop_last() =~= board);
            assert(returned.search.stack.drop_last().push(merged) =~= seq![merged]);
            let rest = self.lemma_root_children(board, depth, merged);
            self.lemma_run_round(returned, rest);
            self.lemma_run_split(entered, visit, rest + 1);
            self.lemma_run_round(play, visit + rest + 1);
            visit + rest + 2
        }
    }

    /// A search for the best move, of any depth, begun on any board and
    /// answered truthfully, comes to an end after some number `n` of rounds.
    /// It then names the move that the definition of the search selects for
    /// the position it began at, and none if that position has no legal
    /// move; and the board is the board it began with: every move played
    /// has been taken back.
    pub proof fn theorem_search_selects_best_move(self, board: Seq<P>, depth: i32) -> (n: nat)
        requires
            board.len() > 0,
        ensures
            self.run(Play { board, search: SearchView::start(depth) }, n).board == board,
            self.run(Play { board, search: SearchView::start(depth) }, n).search.request()
                == Action::Done(self.best_move(board.last(), depth as int)),
            (self.moves)(board.last()).len() == 0 ==> self.run(
                Play { board, search: SearchView::start(depth) },
                n,
            ).search.request() == Action::<M>::Done(None),
    {
        // The root's moves are listed and the root is opened on them.
        let play = Play { board, search: SearchView::<M>::start(depth) };
        let frame = FrameView::open(play.search.ahead(), (self.moves)(board.last()));
        let rest = self.lemma_root_children(board, depth, frame);
        self.lemma_run_round(play, rest);
        rest + 1
    }

    /// The move that a search for the best move ends on, answered truthfully,
    /// is one of the legal moves of the position it began at.
    pub proof fn theorem_search_selects_legal_move(self, board: Seq<P>, depth: i32) -> (n: nat)
        requires
            self.wf(),
            board.len() > 0,
        ensures
            self.run(Play { board, search: SearchView::start(depth) }, n).search.request()
                matches Action::Done(Some(m)) ==> (self.moves)(board.last()).contains(m),
    {
        if self.best_move(board.last(), depth as int) is Some {
            self.theorem_best_move_is_best(board.last(), depth as int);
        }
        self.theorem_search_selects_best_move(board, depth)
    }

    /// A search can be repeated: a second search for the best move, begun on
    /// the board that the first one left, ends on the same move as the
    /// first, and leaves the same board again.
    pub proof fn theorem_search_can_be_repeated(self, board: Seq<P>, depth: i32) -> (n: (nat, nat))
        requires
            board.len() > 0,
        ensures
            ({
                let first = self.run(Play { board, search: SearchView::start(depth) }, n.0);
                let second = self.run(
                    Play { board: first.board, search: SearchView::start(depth) },
                    n.1,
                );
                &&& first.search.request() is Done
                &&& second.search.request() == first.search.request()
                &&& second.board == board
            }),
    {
        let rounds = self.theorem_search_selects_best_move(board, depth);
        (rounds, rounds)
    }

    /// A search for the score of a position, of any depth, window and side,
    /// begun on any board and answered truthfully, comes to an end after
    /// some number `n` of rounds. It then names the alpha-beta value of the
    /// position it began at, and the board is the board it began with.
    pub proof fn theorem_search_scores_position(
        self,
        board: Seq<P>,
        depth: i32,
        alpha: i32,
        beta: i32,
        maximising: bool,
    ) -> (n: nat)
        requires
            board.len() > 0,
        ensures
            self.run(
                Play { board, search: SearchView::<M>::scoring(depth, alpha, beta, maximising) },
                n,
            ) == (Play {
                board,
                search: SearchView::<M> {
                    goal: Goal::Score { depth, alpha, beta, maximising },
                    stack: Seq::empty(),
                    phase: PhaseView::Scored(
                        self.alpha_beta(
                            board.last(),
                            depth as int,
                            alpha as int,
                            beta as int,
                            maximising,
                        ),
                    ),
                },
            }),
    {
        self.lemma_visit(
            Play { board, search: SearchView::<M>::scoring(depth, alpha, beta, maximising) },
        )
    }

    /// Pruning is exact in the machine too: a search for the score of a
    /// position with the full window, answered truthfully, ends on the
    /// minimax value of the position.
    pub proof fn theorem_full_window_scores_minimax(
        self,
        board: Seq<P>,
        depth: i32,
        maximising: bool,
    ) -> (n: nat)
        requires
            self.wf(),
            board.len() > 0,
        ensures
            self.run(
                Play { board, search: SearchView::scoring(depth, i32::MIN, i32::MAX, maximising) },
                n,
            ).board == board,
            self.run(
                Play { board, search: SearchView::scoring(depth, i32::MIN, i32::MAX, maximising) },
                n,
            ).search.phase == PhaseView::<M>::Scored(
                self.minimax(board.last(), depth as int, maximising),
            ),
    {
        self.theorem_pruning_is_exact(board.last(), depth as int, maximising);
        self.theorem_search_scores_position(board, depth, i32::MIN, i32::MAX, maximising)
    }
}

} // verus!
