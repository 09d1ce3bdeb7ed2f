//! Depth-limited alpha-beta search as a resumable state machine.
//!
//! The search never touches a board. It keeps the stack of nodes it is
//! working on and, one step at a time, names what it needs done on the
//! caller's board ([`Action`]) and takes in what came of it ([`Event`]).
//! Every move it asks to have played it later asks to have taken back, in
//! last-in first-out order, so one board serves the whole search.
//!
//! A search either selects the best move of a position ([`Search::new`],
//! stepped by [`handle_go_uci`]) or scores a position for a given depth,
//! window and side ([`Search::scoring`], stepped by [`alpha_beta`]). To run
//! one, start with [`Search::request`], do what it says, hand the outcome to
//! the step function, and go on with the request it returns until that is
//! [`Action::Done`] or [`Action::Scored`].

use crate::evaluation::{balance_of, evaluate, Piece, Placement};
use crate::game::{Choice, Window};
use vstd::prelude::*;

verus! {

/// What the search asks its caller to do next.
#[derive(Debug, PartialEq, Eq)]
pub enum Action<M> {
    /// Report the legal moves of the side to move, in enumeration order.
    ListMoves,
    /// Report whether the game has ended in the current position.
    CheckEnded,
    /// Report the pieces that stand on the board.
    ReadPieces,
    /// Play this move on the board.
    Apply(M),
    /// Take back the move played last.
    Undo,
    /// Nothing more: the search is over and this is the move it selects, if
    /// there is one. The board is as it was when the search began.
    Done(Option<M>),
    /// Nothing more: the search is over and this is the score of the
    /// position. The board is as it was when the search began.
    Scored(i32),
}

/// What a search is for.
#[derive(Clone, Copy, Debug, PartialEq, Eq)]
pub enum Goal {
    /// To select the best move of the position for the side to move,
    /// looking `depth` plies ahead.
    Select { depth: i32 },
    /// To score the position `depth` plies deep, inside the window from
    /// `alpha` to `beta`, for a side to move that wants a high score
    /// (`maximising`) or a low one.
    Score { depth: i32, alpha: i32, beta: i32, maximising: bool },
}

/// A position to be searched: how deep, inside which window, and for which
/// side.
pub ghost struct Node {
    pub depth: int,
    pub alpha: int,
    pub beta: int,
    pub maximising: bool,
}

/// What the caller reports back.
#[derive(Debug)]
pub enum Event<M> {
    /// The legal moves of the side to move, in enumeration order.
    Moves(Vec<M>),
    /// Whether the game has ended in the current position.
    Ended(bool),
    /// The pieces that stand on the board.
    Pieces(Placement),
    /// The move asked for was played.
    Applied,
    /// The move played last was taken back.
    Undone,
}

/// The mathematical content of an [`Event`].
pub ghost enum EventView<M> {
    Moves(Seq<M>),
    Ended(bool),
    Pieces(Seq<Piece>),
    Applied,
    Undone,
}

impl<M> View for Event<M> {
    type V = EventView<M>;

    open spec fn view(&self) -> EventView<M> {
        match self {
            Event::Moves(ms) => EventView::Moves(ms@),
            Event::Ended(ended) => EventView::Ended(*ended),
            Event::Pieces(placement) => EventView::Pieces(placement@),
            Event::Applied => EventView::Applied,
            Event::Undone => EventView::Undone,
        }
    }
}

/// Which report the search is waiting for.
pub ghost enum PhaseView<M> {
    AwaitMoves,
    AwaitEnded,
    AwaitPieces,
    AwaitApplied,
    /// The node just left has this value; its move is to be taken back.
    AwaitUndone(int),
    Finished(Option<M>),
    Scored(int),
}

/// A node of the search tree that has moves left to try.
pub ghost struct FrameView<M> {
    /// Plies left to search from this node.
    pub depth: int,
    pub maximising: bool,
    pub alpha: int,
    pub beta: int,
    pub best: int,
    pub cut: bool,
    /// At the root, the move that reached `best`.
    pub pick: Option<M>,
    pub moves: Seq<M>,
    /// How many of `moves` have been gone through.
    pub next: int,
}

impl<M> FrameView<M> {
    /// The node opened on the position `node` with these moves.
    pub open spec fn open(node: Node, moves: Seq<M>) -> FrameView<M> {
        let w = Window::fresh(node.alpha, node.beta, node.maximising);
        FrameView {
            depth: node.depth,
            maximising: node.maximising,
            alpha: w.alpha,
            beta: w.beta,
            best: w.best,
            cut: w.cut,
            pick: None,
            moves,
            next: 0,
        }
    }

    /// The position reached by the move that `self` is trying: one ply less
    /// to go, the other side to move, inside the window `self` has left.
    pub open spec fn below(self) -> Node {
        Node {
            depth: self.depth - 1,
            alpha: self.alpha,
            beta: self.beta,
            maximising: !self.maximising,
        }
    }

    /// The window and the best score of the node.
    pub open spec fn window(self) -> Window {
        Window { alpha: self.alpha, beta: self.beta, best: self.best, cut: self.cut }
    }

    /// At the root, the pick of the node.
    pub open spec fn choice(self) -> Choice<M> {
        Choice { score: self.best, best: self.pick }
    }

    /// There is a move left to try.
    pub open spec fn live(self) -> bool {
        !self.cut && 0 <= self.next < self.moves.len()
    }

    /// Below the root: takes in the value `v` of the move that was tried.
    pub open spec fn absorb(self, v: int) -> FrameView<M> {
        let w = self.window().absorb(self.maximising, v);
        FrameView {
            alpha: w.alpha,
            beta: w.beta,
            best: w.best,
            cut: w.cut,
            next: self.next + 1,
            ..self
        }
    }

    /// At the root: takes in the value `v` of the move that was tried.
    pub open spec fn absorb_at_root(self, v: int) -> FrameView<M> {
        let c = self.choice().absorb(self.moves[self.next], v);
        FrameView { best: c.score, pick: c.best, next: self.next + 1, ..self }
    }
}

/// The state of a search: what it is for, the nodes from the first down to
/// the one being worked on, and the report awaited.
pub ghost struct SearchView<M> {
    pub goal: Goal,
    pub stack: Seq<FrameView<M>>,
    pub phase: PhaseView<M>,
}

impl<M> SearchView<M> {
    /// A search for the best move that has not begun: it will ask for the
    /// root's moves.
    pub open spec fn start(depth: i32) -> SearchView<M> {
        SearchView {
            goal: Goal::Select { depth },
            stack: Seq::empty(),
            phase: PhaseView::AwaitMoves,
        }
    }

    /// A search for the score of a position that has not begun: the position
    /// is scored as it stands if no plies are to be searched, else it is
    /// first asked whether the game has ended.
    pub open spec fn scoring(depth: i32, alpha: i32, beta: i32, maximising: bool) -> SearchView<M> {
        SearchView {
            goal: Goal::Score { depth, alpha, beta, maximising },
            stack: Seq::empty(),
            phase: if depth <= 0 {
                PhaseView::AwaitPieces
            } else {
                PhaseView::AwaitEnded
            },
        }
    }

    /// The position the search has in front of it: the one reached by the
    /// move that the top node is trying, or, before any node was opened, the
    /// position the search began at. The root of a search for the best move
    /// maximises over the full window.
    pub open spec fn ahead(self) -> Node {
        if self.stack.len() > 0 {
            self.stack.last().below()
        } else {
            match self.goal {
                Goal::Select { depth } => Node {
                    depth: depth as int,
                    alpha: i32::MIN as int,
                    beta: i32::MAX as int,
                    maximising: true,
                },
                Goal::Score { depth, alpha, beta, maximising } => Node {
                    depth: depth as int,
                    alpha: alpha as int,
                    beta: beta as int,
                    maximising,
                },
            }
        }
    }

    /// Every node on the stack has a move left to try, and the report awaited
    /// fits the stack and the goal.
    pub open spec fn wf(self) -> bool {
        &&& forall|i: int| 0 <= i < self.stack.len() ==> (#[trigger] self.stack[i]).live()
        &&& match self.phase {
            PhaseView::AwaitMoves => self.stack.len() > 0 ==> self.stack.last().depth > 1,
            PhaseView::AwaitEnded => if self.stack.len() > 0 {
                self.stack.last().depth > 1
            } else {
                self.goal is Score
            },
            PhaseView::AwaitPieces => self.stack.len() > 0 || self.goal is Score,
            PhaseView::AwaitApplied | PhaseView::AwaitUndone(_) => self.stack.len() > 0,
            PhaseView::Finished(_) => self.stack.len() == 0 && self.goal is Select,
            PhaseView::Scored(_) => self.stack.len() == 0 && self.goal is Score,
        }
    }

    /// The next decision is the root's own, in a search for the best move:
    /// to open the root, to take in the value of one of its moves, or to
    /// stay finished.
    pub open spec fn at_root(self) -> bool {
        &&& self.goal is Select
        &&& self.stack.len() == 0 || (self.stack.len() == 1 && self.phase is AwaitUndone)
    }

    /// What the search is waiting to have done.
    pub open spec fn request(self) -> Action<M> {
        match self.phase {
            PhaseView::AwaitMoves => Action::ListMoves,
            PhaseView::AwaitEnded => Action::CheckEnded,
            PhaseView::AwaitPieces => Action::ReadPieces,
            PhaseView::AwaitApplied => Action::Apply(
                self.stack.last().moves[self.stack.last().next],
            ),
            PhaseView::AwaitUndone(_) => Action::Undo,
            PhaseView::Finished(pick) => Action::Done(pick),
            PhaseView::Scored(v) => Action::Scored(v as i32),
        }
    }

    /// Whether the search is over.
    pub open spec fn is_over(self) -> bool {
        self.phase is Finished || self.phase is Scored
    }

    /// The position in front of the search has the value `v`. If a move led
    /// to it, the move is to be taken back; if it is the position the search
    /// began at, the search is over.
    pub open spec fn hand_up(self, v: int) -> SearchView<M> {
        if self.stack.len() > 0 {
            SearchView { phase: PhaseView::AwaitUndone(v), ..self }
        } else {
            SearchView { phase: PhaseView::Scored(v), ..self }
        }
    }

    /// Looks at the top node. If it has a move left, that move is to be
    /// played. If not, the node is done: the root of a search for the best
    /// move ends the search on its pick, any other node hands up its value.
    pub open spec fn advance(self) -> SearchView<M> {
        let top = self.stack.last();
        if top.live() {
            SearchView { phase: PhaseView::AwaitApplied, ..self }
        } else if self.stack.len() == 1 && self.goal is Select {
            SearchView { stack: Seq::empty(), phase: PhaseView::Finished(top.pick), ..self }
        } else {
            SearchView { stack: self.stack.drop_last(), ..self }.hand_up(top.best)
        }
    }

    /// The moves of the position in front of the search are known: a node
    /// for it goes on the stack.
    pub open spec fn open_node(self, moves: Seq<M>) -> SearchView<M> {
        SearchView {
            stack: self.stack.push(FrameView::open(self.ahead(), moves)),
            ..self
        }.advance()
    }

    /// A position is in front of the search: it is scored as it stands if no
    /// plies are left, else it is first asked whether the game has ended.
    pub open spec fn enter(self) -> SearchView<M> {
        if self.ahead().depth <= 0 {
            SearchView { phase: PhaseView::AwaitPieces, ..self }
        } else {
            SearchView { phase: PhaseView::AwaitEnded, ..self }
        }
    }

    /// A move was taken back: the node that tried it takes in its value `v`.
    pub open spec fn take_back(self, v: int) -> SearchView<M> {
        let top = self.stack.last();
        let merged = if self.stack.len() == 1 && self.goal is Select {
            top.absorb_at_root(v)
        } else {
            top.absorb(v)
        };
        SearchView { stack: self.stack.drop_last().push(merged), ..self }.advance()
    }

    /// One step of the search: the state after `event` was reported. A
    /// report other than the one awaited changes nothing.
    pub open spec fn step(self, event: EventView<M>) -> SearchView<M> {
        match (self.phase, event) {
            (PhaseView::AwaitMoves, EventView::Moves(moves)) => self.open_node(moves),
            (PhaseView::AwaitEnded, EventView::Ended(ended)) => if ended {
                SearchView { phase: PhaseView::AwaitPieces, ..self }
            } else {
                SearchView { phase: PhaseView::AwaitMoves, ..self }
            },
            (PhaseView::AwaitPieces, EventView::Pieces(pieces)) => self.hand_up(balance_of(pieces)),
            (PhaseView::AwaitApplied, EventView::Applied) => self.enter(),
            (PhaseView::AwaitUndone(v), EventView::Undone) => self.take_back(v),
            _ => self,
        }
    }

    /// How many moves the search has had played and not yet taken back.
    pub open spec fn moves_out(self) -> int {
        match self.phase {
            PhaseView::AwaitMoves | PhaseView::AwaitEnded | PhaseView::AwaitPieces
            | PhaseView::AwaitUndone(_) => self.stack.len() as int,
            PhaseView::AwaitApplied => self.stack.len() - 1,
            PhaseView::Finished(_) | PhaseView::Scored(_) => 0,
        }
    }

    /// A step keeps the state well formed.
    pub proof fn lemma_step_keeps_wf(self, event: EventView<M>)
        requires
            self.wf(),
        ensures
            self.step(event).wf(),
    {
        let next = self.step(event);
        assert forall|i: int| 0 <= i < next.stack.len() implies (
        #[trigger] next.stack[i]).live() by {
            if i < self.stack.len() - 1 {
                assert(self.stack[i].live());
            }
        }
    }

    /// Moves are played and taken back one at a time, last in first out: a
    /// state that asks for a move to be played turns, once it was, into one
    /// with one more move out; one that asks for a move to be taken back has
    /// a move out, and turns into one with one less; any other report leaves
    /// the count as it is. A search that is over has no move out.
    pub proof fn theorem_moves_are_taken_back(self, event: EventView<M>)
        requires
            self.wf(),
        ensures
            self.moves_out() >= 0,
            self.request() is Undo ==> self.moves_out() >= 1,
            self.is_over() ==> self.moves_out() == 0,
            self.step(event).moves_out() == self.moves_out() + (if self.request() is Apply
                && event is Applied {
                1int
            } else if self.request() is Undo && event is Undone {
                -1int
            } else {
                0int
            }),
    {
        self.lemma_step_keeps_wf(event);
    }
}

/// Which report the search is waiting for.
pub enum Phase<M> {
    AwaitMoves,
    AwaitEnded,
    AwaitPieces,
    AwaitApplied,
    AwaitUndone(i32),
    Finished(Option<M>),
    Scored(i32),
}

impl<M> View for Phase<M> {
    type V = PhaseView<M>;

    open spec fn view(&self) -> PhaseView<M> {
        match self {
            Phase::AwaitMoves => PhaseView::AwaitMoves,
            Phase::AwaitEnded => PhaseView::AwaitEnded,
            Phase::AwaitPieces => PhaseView::AwaitPieces,
            Phase::AwaitApplied => PhaseView::AwaitApplied,
            Phase::AwaitUndone(v) => PhaseView::AwaitUndone(*v as int),
            Phase::Finished(pick) => PhaseView::Finished(*pick),
            Phase::Scored(v) => PhaseView::Scored(*v as int),
        }
    }
}

/// A node of the search tree that has moves left to try.
pub struct Frame<M> {
    depth: i32,
    maximising: bool,
    alpha: i32,
    beta: i32,
    best: i32,
    cut: bool,
    pick: Option<M>,
    moves: Vec<M>,
    next: usize,
}

impl<M> View for Frame<M> {
    type V = FrameView<M>;

    closed spec fn view(&self) -> FrameView<M> {
        FrameView {
            depth: self.depth as int,
            maximising: self.maximising,
            alpha: self.alpha as int,
            beta: self.beta as int,
            best: self.best as int,
            cut: self.cut,
            pick: self.pick,
            moves: self.moves@,
            next: self.next as int,
        }
    }
}

/// A search in progress.
pub struct Search<M> {
    goal: Goal,
    stack: Vec<Frame<M>>,
    phase: Phase<M>,
}

impl<M> View for Search<M> {
    type V = SearchView<M>;

    closed spec fn view(&self) -> SearchView<M> {
        SearchView {
            goal: self.goal,
            stack: Seq::new(self.stack@.len(), |i: int| self.stack@[i]@),
            phase: self.phase@,
        }
    }
}

impl<M: Copy> Search<M> {
    /// Every node on the stack has a move left to try, and the report awaited
    /// fits the stack and the goal.
    pub open spec fn wf(&self) -> bool {
        self@.wf()
    }

    /// A search for the best move, `depth` plies deep, that has not begun.
    /// A depth of zero or less searches as a depth of one does: each move
    /// of the root is scored by the position it leads to.
    pub fn new(depth: i32) -> (search: Search<M>)
        ensures
            search.wf(),
            search@ == SearchView::<M>::start(depth),
    {
        let search = Search {
            goal: Goal::Select { depth },
            stack: Vec::new(),
            phase: Phase::AwaitMoves,
        };
        assert(search@.stack =~= Seq::empty());
        search
    }

    /// A search for the score of a position, `depth` plies deep, inside the
    /// window from `alpha` to `beta`, that has not begun. At a depth of zero
    /// or less the position is scored as it stands.
    pub fn scoring(depth: i32, alpha: i32, beta: i32, maximising: bool) -> (search: Search<M>)
        ensures
            search.wf(),
            search@ == SearchView::<M>::scoring(depth, alpha, beta, maximising),
    {
        let search = Search {
            goal: Goal::Score { depth, alpha, beta, maximising },
            stack: Vec::new(),
            phase: if depth <= 0 {
                Phase::AwaitPieces
            } else {
                Phase::AwaitEnded
            },
        };
        assert(search@.stack =~= Seq::empty());
        search
    }

    /// What the search is waiting to have done.
    pub fn request(&self) -> (action: Action<M>)
        requires
            self.wf(),
        ensures
            action == self@.request(),
    {
        match &self.phase {
            Phase::AwaitMoves => Action::ListMoves,
            Phase::AwaitEnded => Action::CheckEnded,
            Phase::AwaitPieces => Action::ReadPieces,
            Phase::AwaitApplied => {
                let n: usize = self.stack.len();
                let top = &self.stack[n - 1];
                Action::Apply(top.moves[top.next])
            },
            Phase::AwaitUndone(_) => Action::Undo,
            Phase::Finished(pick) => Action::Done(*pick),
            Phase::Scored(v) => Action::Scored(*v),
        }
    }

    /// Whether the search is over.
    pub fn is_finished(&self) -> (finished: bool)
        ensures
            finished == self@.is_over(),
            finished == (self@.request() is Done || self@.request() is Scored),
    {
        match &self.phase {
            Phase::Finished(_) => true,
            Phase::Scored(_) => true,
            _ => false,
        }
    }

    /// A copy of the phase.
    fn phase(&self) -> (phase: Phase<M>)
        ensures
            phase@ == self@.phase,
    {
        match &self.phase {
            Phase::AwaitMoves => Phase::AwaitMoves,
            Phase::AwaitEnded => Phase::AwaitEnded,
            Phase::AwaitPieces => Phase::AwaitPieces,
            Phase::AwaitApplied => Phase::AwaitApplied,
            Phase::AwaitUndone(v) => Phase::AwaitUndone(*v),
            Phase::Finished(pick) => Phase::Finished(*pick),
            Phase::Scored(v) => Phase::Scored(*v),
        }
    }

    /// Whether the search is for the best move.
    fn selects(&self) -> (selects: bool)
        ensures
            selects == (self@.goal is Select),
    {
        match self.goal {
            Goal::Select { .. } => true,
            Goal::Score { .. } => false,
        }
    }

    /// Whether the next decision is the root's own.
    fn at_root(&self) -> (at_root: bool)
        ensures
            at_root == self@.at_root(),
    {
        let n: usize = self.stack.len();
        self.selects() && (n == 0 || (n == 1 && match &self.phase {
            Phase::AwaitUndone(_) => true,
            _ => false,
        }))
    }

    /// Hands the value `v` of the position in front of the search to the
    /// node that asked for it, or ends the search on it.
    fn hand_up(&mut self, v: i32)
        ensures
            final(self)@ == old(self)@.hand_up(v as int),
    {
        if self.stack.len() > 0 {
            self.phase = Phase::AwaitUndone(v);
        } else {
            self.phase = Phase::Scored(v);
        }
    }

    /// Plays the next move of the top node, or closes the node.
    fn advance(&mut self)
        requires
            old(self).stack.len() > 0,
        ensures
            final(self)@ == old(self)@.advance(),
    {
        let n: usize = self.stack.len();
        let top = &self.stack[n - 1];
        if !top.cut && top.next < top.moves.len() {
            self.phase = Phase::AwaitApplied;
        } else {
            let top = self.stack.pop().unwrap();
            if n == 1 && self.selects() {
                self.phase = Phase::Finished(top.pick);
                assert(self@.stack =~= Seq::empty());
            } else {
                assert(self@.stack =~= old(self)@.stack.drop_last());
                self.hand_up(top.best);
            }
        }
    }

    /// Puts the node for the position in front of the search on the stack.
    fn open_node(&mut self, moves: Vec<M>)
        requires
            old(self).stack.len() > 0 ==> old(self)@.stack.last().depth > 1,
        ensures
            final(self)@ == old(self)@.open_node(moves@),
    {
        let n: usize = self.stack.len();
        let (depth, alpha, beta, maximising) = if n > 0 {
            let top = &self.stack[n - 1];
            (top.depth - 1, top.alpha, top.beta, !top.maximising)
        } else {
            match self.goal {
                Goal::Select { depth } => (depth, i32::MIN, i32::MAX, true),
                Goal::Score { depth, alpha, beta, maximising } => (depth, alpha, beta, maximising),
            }
        };
        let frame = Frame {
            depth,
            maximising,
            alpha,
            beta,
            best: if maximising {
                i32::MIN
            } else {
                i32::MAX
            },
            cut: false,
            pick: None,
            moves,
            next: 0,
        };
        let ghost pushed = SearchView { stack: old(self)@.stack.push(frame@), ..old(self)@ };
        self.stack.push(frame);
        assert(self@.stack =~= pushed.stack);
        self.advance();
    }

    /// Hands the value `v` of the move just taken back to the top node.
    fn take_back(&mut self, v: i32)
        requires
            old(self).stack.len() > 0,
            old(self)@.stack.last().live(),
        ensures
            final(self)@ == old(self)@.take_back(v as int),
    {
        let ghost before = old(self)@;
        let mut top = self.stack.pop().unwrap();
        let ghost below = before.stack.drop_last();
        assert(top.next < top.moves.len());
        if self.stack.len() == 0 && self.selects() {
            if v > top.best {
                top.best = v;
                top.pick = Some(top.moves[top.next]);
            }
        } else if top.maximising {
            if v > top.best {
                top.best = v;
            }
            if v > top.alpha {
                top.alpha = v;
            }
            top.cut = top.alpha >= top.beta;
        } else {
            if v < top.best {
                top.best = v;
            }
            if v < top.beta {
                top.beta = v;
            }
            top.cut = top.beta <= top.alpha;
        }
        top.next = top.next + 1;
        let ghost merged = top@;
        self.stack.push(top);
        let ghost pushed = SearchView { stack: below.push(merged), ..before };
        assert(self@.stack =~= pushed.stack);
        self.advance();
    }
}

/// One step of an alpha-beta search below the root: takes in `event` and
/// says what is to be done next.
///
/// A position that comes in front of the search is scored as it stands if no
/// plies are left or the game has ended there; otherwise a node is opened on
/// its moves. A node tries its moves in order, each followed by the position
/// it leads to, one ply less deep, for the other side, inside the window the
/// node has left. The value of each move is folded into the node: a
/// maximising node raises its best score and `alpha`, a minimising one
/// lowers its best score and `beta`; once the two bounds meet, the moves
/// that are left are skipped. A node that is done hands up its best score.
///
/// A search for a score ([`Search::scoring`]) is made of such steps alone.
/// In a search for the best move, where the next decision is the root's own,
/// this function changes nothing: see [`handle_go_uci`].
pub fn alpha_beta<M: Copy>(search: &mut Search<M>, event: Event<M>) -> (action: Action<M>)
    requires
        old(search).wf(),
    ensures
        final(search).wf(),
        !old(search)@.at_root() ==> final(search)@ == old(search)@.step(event@),
        old(search)@.at_root() ==> final(search)@ == old(search)@,
        action == final(search)@.request(),
{
    if search.at_root() {
        return search.request();
    }
    proof {
        search@.lemma_step_keeps_wf(event@);
    }
    match (search.phase(), event) {
        (Phase::AwaitMoves, Event::Moves(moves)) => {
            search.open_node(moves);
        },
        (Phase::AwaitEnded, Event::Ended(ended)) => {
            if ended {
                search.phase = Phase::AwaitPieces;
            } else {
                search.phase = Phase::AwaitMoves;
            }
        },
        (Phase::AwaitPieces, Event::Pieces(placement)) => {
            search.hand_up(evaluate(&placement));
        },
        (Phase::AwaitApplied, Event::Applied) => {
            let top = &search.stack[search.stack.len() - 1];
            if top.depth <= 1 {
                search.phase = Phase::AwaitPieces;
            } else {
                search.phase = Phase::AwaitEnded;
            }
        },
        (Phase::AwaitUndone(v), Event::Undone) => {
            search.take_back(v);
        },
        _ => {},
    }
    search.request()
}

/// One step of a search: takes in `event` and says what is to be done next.
///
/// In a search for the best move ([`Search::new`]) the root is opened on the
/// list of its moves. Each move is played, the position it leads to is
/// searched by [`alpha_beta`] one ply less deep, for the opponent, with the
/// full window, and the move is taken back; the root keeps the first move
/// with the greatest score. A root without moves ends the search with no
/// move selected. Below the root the step is that of [`alpha_beta`]. A
/// report other than the one awaited changes nothing, and the same request
/// is made again.
pub fn handle_go_uci<M: Copy>(search: &mut Search<M>, event: Event<M>) -> (action: Action<M>)
    requires
        old(search).wf(),
    ensures
        final(search).wf(),
        final(search)@ == old(search)@.step(event@),
        action == final(search)@.request(),
{
    if !search.at_root() {
        return alpha_beta(search, event);
    }
    proof {
        search@.lemma_step_keeps_wf(event@);
    }
    match (search.phase(), event) {
        (Phase::AwaitMoves, Event::Moves(moves)) => {
            search.open_node(moves);
        },
        (Phase::AwaitUndone(v), Event::Undone) => {
            search.take_back(v);
        },
        _ => {},
    }
    search.request()
}

} // verus!
