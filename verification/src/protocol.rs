//! The line-oriented command protocol, as a state machine.
//!
//! The session reads no stream and holds no board. It is handed each line of
//! input and the outcome of each thing it asked for ([`Input`]), and answers
//! with what is to be written or done next ([`Reply`]).

use vstd::prelude::*;
use vstd::slice::slice_subrange;
use vstd::string::*;

verus! {

/// How many plies a `go` command searches.
pub const SEARCH_DEPTH: i32 = 4;

/// Whether `c` is white space: a character with the Unicode property
/// `White_Space`.
pub open spec fn is_space(c: char) -> bool {
    let u = c as u32;
    ||| 0x09 <= u <= 0x0D
    ||| u == 0x20
    ||| u == 0x85
    ||| u == 0xA0
    ||| u == 0x1680
    ||| 0x2000 <= u <= 0x200A
    ||| u == 0x2028
    ||| u == 0x2029
    ||| u == 0x202F
    ||| u == 0x205F
    ||| u == 0x3000
}

/// The number of characters before the first white space in `s`.
pub open spec fn word_len(s: Seq<char>) -> nat
    decreases s.len(),
{
    if s.len() == 0 || is_space(s[0]) {
        0
    } else {
        1 + word_len(s.drop_first())
    }
}

/// A word is no longer than the text it begins, and not empty where the
/// text begins with something other than white space.
pub proof fn lemma_word_len_bounds(s: Seq<char>)
    ensures
        word_len(s) <= s.len(),
        s.len() > 0 && !is_space(s[0]) ==> word_len(s) >= 1,
    decreases s.len(),
{
    if s.len() > 0 && !is_space(s[0]) {
        lemma_word_len_bounds(s.drop_first());
    }
}

/// The tokens of a line: its longest runs of characters other than white
/// space, in order.
pub open spec fn tokens_of(line: Seq<char>) -> Seq<Seq<char>>
    decreases line.len(),
{
    if line.len() == 0 {
        Seq::empty()
    } else if is_space(line[0]) {
        tokens_of(line.drop_first())
    } else {
        let n = word_len(line) as int;
        proof {
            lemma_word_len_bounds(line);
        }
        seq![line.take(n)] + tokens_of(line.skip(n))
    }
}

/// The text of each string.
pub open spec fn texts(strings: Seq<String>) -> Seq<Seq<char>> {
    strings.map_values(|s: String| s@)
}

/// Where a position command starts from.
#[derive(Debug, PartialEq, Eq)]
pub enum Start {
    /// The standard initial position.
    Startpos,
    /// The position that this FEN text describes.
    Fen(String),
}

pub ghost enum StartView {
    Startpos,
    Fen(Seq<char>),
}

impl View for Start {
    type V = StartView;

    open spec fn view(&self) -> StartView {
        match self {
            Start::Startpos => StartView::Startpos,
            Start::Fen(fen) => StartView::Fen(fen@),
        }
    }
}

/// A position to set up: where to start, and the moves to replay from
/// there, in algebraic form and in order.
#[derive(Debug, PartialEq, Eq)]
pub struct Setup {
    pub start: Start,
    pub moves: Vec<String>,
}

pub ghost struct SetupView {
    pub start: StartView,
    pub moves: Seq<Seq<char>>,
}

impl View for Setup {
    type V = SetupView;

    open spec fn view(&self) -> SetupView {
        SetupView { start: self.start@, moves: texts(self.moves@) }
    }
}

/// The moves that a position command lists: what follows the word `moves`
/// where that word stands at index `at`, and nothing where it does not.
pub open spec fn moves_after(tokens: Seq<Seq<char>>, at: int) -> Seq<Seq<char>> {
    if tokens.len() > at && tokens[at] == "moves"@ {
        tokens.skip(at + 1)
    } else {
        Seq::empty()
    }
}

/// Where the word `moves` first stands at or after index `from`; the number
/// of tokens if it stands nowhere there.
pub open spec fn moves_at(tokens: Seq<Seq<char>>, from: int) -> int
    decreases tokens.len() - from,
{
    if from >= tokens.len() {
        tokens.len() as int
    } else if tokens[from] == "moves"@ {
        from
    } else {
        moves_at(tokens, from + 1)
    }
}

/// The words with a single space between each two.
pub open spec fn joined(words: Seq<Seq<char>>) -> Seq<char>
    decreases words.len(),
{
    if words.len() == 0 {
        Seq::empty()
    } else if words.len() == 1 {
        words[0]
    } else {
        joined(words.drop_last()) + seq![' '] + words.last()
    }
}

/// The position that the tokens after the word `position` describe.
///
/// After `startpos` the word `moves`, if it comes next, begins the list of
/// moves. After `fen` the FEN text is every token up to the first `moves`,
/// or to the end where there is none: all the fields of the FEN, with a
/// single space between each two; what follows that `moves` is the list of
/// moves. `fen` without any text, and anything that is neither, describes
/// no position.
pub open spec fn setup_of(tokens: Seq<Seq<char>>) -> Option<SetupView> {
    if tokens.len() > 0 && tokens[0] == "startpos"@ {
        Some(SetupView { start: StartView::Startpos, moves: moves_after(tokens, 1) })
    } else if tokens.len() > 1 && tokens[0] == "fen"@ && moves_at(tokens, 1) > 1 {
        let end = moves_at(tokens, 1);
        Some(
            SetupView {
                start: StartView::Fen(joined(tokens.subrange(1, end))),
                moves: moves_after(tokens, end),
            },
        )
    } else {
        None
    }
}

/// The moves of a replay list that could be read, in order.
pub open spec fn legible<M>(parsed: Seq<Option<M>>) -> Seq<M>
    decreases parsed.len(),
{
    if parsed.len() == 0 {
        Seq::empty()
    } else {
        match parsed.last() {
            Some(m) => legible(parsed.drop_last()).push(m),
            None => legible(parsed.drop_last()),
        }
    }
}

/// What the session is waiting for.
#[derive(Clone, Copy, Debug, PartialEq, Eq, Structural)]
pub enum Awaiting {
    /// The next line of input.
    Command,
    /// Word on whether the position it asked for could be set up.
    Position,
    /// The outcome of the search it asked for.
    BestMove,
}

/// The state of a session: whether a current position has been set, and
/// what the session is waiting for.
#[derive(Clone, Copy, Debug, PartialEq, Eq, Structural)]
pub struct Session {
    pub has_position: bool,
    pub awaiting: Awaiting,
}

/// What the session is told.
#[derive(Debug)]
pub enum Input {
    /// A line of input.
    Line(String),
    /// The position asked for is now the current position.
    PositionSet,
    /// The position asked for could not be set up: its FEN text is not one.
    PositionRefused,
    /// The search is over, and this is the move it selected, in algebraic
    /// form.
    BestMove(Option<String>),
}

pub ghost enum InputView {
    Line(Seq<char>),
    PositionSet,
    PositionRefused,
    BestMove(Option<Seq<char>>),
}

impl View for Input {
    type V = InputView;

    open spec fn view(&self) -> InputView {
        match self {
            Input::Line(line) => InputView::Line(line@),
            Input::PositionSet => InputView::PositionSet,
            Input::PositionRefused => InputView::PositionRefused,
            Input::BestMove(Some(found)) => InputView::BestMove(Some(found@)),
            Input::BestMove(None) => InputView::BestMove(None),
        }
    }
}

/// What the session wants done.
#[derive(Debug, PartialEq, Eq)]
pub enum Reply {
    /// Write these lines and flush them; then read the next line.
    Write(Vec<String>),
    /// Make this the current position: set up its start, then play each
    /// move of its list that reads as a move. Then report how it went.
    SetPosition(Setup),
    /// Search the current position this many plies deep and report the move
    /// selected.
    Search(i32),
    /// Stop reading.
    Quit,
    /// Nothing to write; read the next line.
    Nothing,
}

pub ghost enum ReplyView {
    Write(Seq<Seq<char>>),
    SetPosition(SetupView),
    Search(int),
    Quit,
    Nothing,
}

impl View for Reply {
    type V = ReplyView;

    open spec fn view(&self) -> ReplyView {
        match self {
            Reply::Write(lines) => ReplyView::Write(texts(lines@)),
            Reply::SetPosition(setup) => ReplyView::SetPosition(setup@),
            Reply::Search(depth) => ReplyView::Search(*depth as int),
            Reply::Quit => ReplyView::Quit,
            Reply::Nothing => ReplyView::Nothing,
        }
    }
}

/// The line that reports the outcome of a search: the move selected, or the
/// null move `0000` where there is none.
pub open spec fn best_move_line(found: Option<Seq<char>>) -> Seq<char> {
    match found {
        Some(found) => "bestmove "@ + found,
        None => "bestmove "@ + "0000"@,
    }
}

/// What a session that waits for a command does with a line of these
/// tokens. A line without tokens, an unknown command and a position command
/// that describes no position are passed over.
pub open spec fn respond_to_line(session: Session, tokens: Seq<Seq<char>>) -> (Session, ReplyView) {
    if tokens.len() == 0 {
        (session, ReplyView::Nothing)
    } else if tokens[0] == "uci"@ {
        (
            session,
            ReplyView::Write(seq!["id name tmforshaw_engine"@, "id author tmforshaw"@, "uciok"@]),
        )
    } else if tokens[0] == "isready"@ {
        (session, ReplyView::Write(seq!["readyok"@]))
    } else if tokens[0] == "position"@ {
        match setup_of(tokens.skip(1)) {
            Some(setup) => (
                Session { awaiting: Awaiting::Position, ..session },
                ReplyView::SetPosition(setup),
            ),
            None => (session, ReplyView::Nothing),
        }
    } else if tokens[0] == "go"@ {
        if session.has_position {
            (
                Session { awaiting: Awaiting::BestMove, ..session },
                ReplyView::Search(SEARCH_DEPTH as int),
            )
        } else {
            (session, ReplyView::Write(seq![best_move_line(None)]))
        }
    } else if tokens[0] == "quit"@ {
        (session, ReplyView::Quit)
    } else {
        (session, ReplyView::Nothing)
    }
}

/// One step of a session: its next state and its reply. While it waits for
/// a command it takes lines; while it waits for the outcome of something it
/// asked for it takes that outcome. Anything else it passes over.
pub open spec fn respond(session: Session, input: InputView) -> (Session, ReplyView) {
    match (session.awaiting, input) {
        (Awaiting::Command, InputView::Line(line)) => respond_to_line(session, tokens_of(line)),
        (Awaiting::Position, InputView::PositionSet) => (
            Session { has_position: true, awaiting: Awaiting::Command },
            ReplyView::Nothing,
        ),
        (Awaiting::Position, InputView::PositionRefused) => (
            Session { awaiting: Awaiting::Command, ..session },
            ReplyView::Write(seq!["info string invalid fen"@]),
        ),
        (Awaiting::BestMove, InputView::BestMove(found)) => (
            Session { awaiting: Awaiting::Command, ..session },
            ReplyView::Write(seq![best_move_line(found)]),
        ),
        _ => (session, ReplyView::Nothing),
    }
}

/// The characters of a word are not white space.
pub proof fn lemma_word_has_no_space(s: Seq<char>, k: int)
    requires
        0 <= k < word_len(s),
    ensures
        k < s.len(),
        !is_space(s[k]),
    decreases s.len(),
{
    if k > 0 {
        lemma_word_has_no_space(s.drop_first(), k - 1);
    }
}

/// Every token is a word: it is not empty and holds no white space.
pub proof fn theorem_tokens_are_words(line: Seq<char>)
    ensures
        forall|i: int|
            0 <= i < tokens_of(line).len() ==> (#[trigger] tokens_of(line)[i]).len() > 0,
        forall|i: int, k: int|
            0 <= i < tokens_of(line).len() && 0 <= k < tokens_of(line)[i].len() ==> !is_space(
                #[trigger] tokens_of(line)[i][k],
            ),
    decreases line.len(),
{
    if line.len() == 0 {
    } else if is_space(line[0]) {
        theorem_tokens_are_words(line.drop_first());
        assert(tokens_of(line) == tokens_of(line.drop_first()));
    } else {
        let n = word_len(line) as int;
        lemma_word_len_bounds(line);
        theorem_tokens_are_words(line.skip(n));
        let rest = tokens_of(line.skip(n));
        let all = tokens_of(line);
        assert(all == seq![line.take(n)] + rest);
        assert forall|i: int, k: int| 0 <= i < all.len() && 0 <= k < all[i].len() implies !is_space(
            #[trigger] all[i][k],
        ) by {
            if i == 0 {
                lemma_word_has_no_space(line, k);
            } else {
                assert(all[i] == rest[i - 1]);
            }
        }
        assert forall|i: int| 0 <= i < all.len() implies (#[trigger] all[i]).len() > 0 by {
            if i > 0 {
                assert(all[i] == rest[i - 1]);
            }
        }
    }
}

/// Whether `text` is a word: not empty and free of white space.
pub open spec fn is_word_text(text: Seq<char>) -> bool {
    text.len() > 0 && forall|k: int| 0 <= k < text.len() ==> !is_space(#[trigger] text[k])
}

/// A word, and then a text that is empty or begins with white space: the
/// word is the first token, and the tokens of the text follow.
proof fn lemma_tokens_after_word(word: Seq<char>, text: Seq<char>)
    requires
        is_word_text(word),
        text.len() == 0 || is_space(text[0]),
    ensures
        tokens_of(word + text) == seq![word] + tokens_of(text),
{
    let line = word + text;
    let n = word.len() as int;
    assert forall|k: int| 0 <= k < n implies !is_space(#[trigger] line[k]) by {
        assert(line[k] == word[k]);
    }
    assert(n < line.len() ==> line[n] == text[0]);
    lemma_word_len_is(line, n);
    assert(line.take(n) =~= word);
    assert(line.skip(n) =~= text);
}

/// Joining two words or more puts the first word, a space, and the rest,
/// joined.
proof fn lemma_joined_from_the_front(words: Seq<Seq<char>>)
    requires
        words.len() >= 2,
    ensures
        joined(words) == words[0] + seq![' '] + joined(words.drop_first()),
    decreases words.len(),
{
    let rest = words.drop_first();
    if words.len() == 2 {
        assert(words.drop_last() =~= seq![words[0]]);
        assert(rest =~= seq![words[1]]);
        assert(joined(words.drop_last()) == words[0]);
        assert(joined(rest) == words[1]);
    } else {
        let init = words.drop_last();
        lemma_joined_from_the_front(init);
        assert(rest.drop_last() =~= init.drop_first());
        assert(joined(words) =~= words[0] + seq![' '] + (joined(init.drop_first()) + seq![' ']
            + words.last()));
    }
}

/// Joining loses nothing: the tokens of words joined by single spaces are
/// the words. So the FEN text of a position command has, as its tokens, the
/// fields that stood in the command, in order.
pub proof fn theorem_joined_words_are_the_tokens(words: Seq<Seq<char>>)
    requires
        forall|i: int| 0 <= i < words.len() ==> is_word_text(#[trigger] words[i]),
    ensures
        tokens_of(joined(words)) == words,
    decreases words.len(),
{
    if words.len() == 0 {
    } else if words.len() == 1 {
        lemma_tokens_after_word(words[0], Seq::empty());
        assert(words[0] + Seq::<char>::empty() =~= words[0]);
        assert(seq![words[0]] + Seq::<Seq<char>>::empty() =~= words);
    } else {
        let rest = words.drop_first();
        let tail = seq![' '] + joined(rest);
        lemma_joined_from_the_front(words);
        assert forall|i: int| 0 <= i < rest.len() implies is_word_text(#[trigger] rest[i]) by {
            assert(rest[i] == words[i + 1]);
        }
        theorem_joined_words_are_the_tokens(rest);
        assert(tail.drop_first() =~= joined(rest));
        lemma_tokens_after_word(words[0], tail);
        assert(joined(words) =~= words[0] + tail);
        assert(seq![words[0]] + rest =~= words);
    }
}

/// Where no token from `from` up to `end` is the word `moves`, and `end` is
/// the end of the tokens or the place of that word, `end` is where the word
/// first stands.
pub proof fn lemma_moves_at_is(tokens: Seq<Seq<char>>, from: int, end: int)
    requires
        0 <= from <= end <= tokens.len(),
        forall|i: int| from <= i < end ==> #[trigger] tokens[i] != "moves"@,
        end < tokens.len() ==> tokens[end] == "moves"@,
    ensures
        moves_at(tokens, from) == end,
    decreases end - from,
{
    if from < end {
        lemma_moves_at_is(tokens, from + 1, end);
    }
}

/// A position command that starts from the initial position: `startpos`
/// alone lists no moves, and `startpos moves` lists the tokens after it.
pub proof fn theorem_startpos_and_moves(moves: Seq<Seq<char>>)
    ensures
        setup_of(seq!["startpos"@]) == Some(
            SetupView { start: StartView::Startpos, moves: Seq::empty() },
        ),
        setup_of(seq!["startpos"@, "moves"@] + moves) == Some(
            SetupView { start: StartView::Startpos, moves },
        ),
{
    let tokens = seq!["startpos"@, "moves"@] + moves;
    assert(tokens.skip(2) =~= moves);
}

/// A position command with a FEN: all the fields of the FEN, however many
/// there are, make up the FEN text, with a single space between each two,
/// and the moves listed after the word `moves` are the moves to replay.
/// Without that word the whole rest of the command is the FEN text.
pub proof fn theorem_fen_and_moves(fields: Seq<Seq<char>>, moves: Seq<Seq<char>>)
    requires
        fields.len() > 0,
        forall|i: int| 0 <= i < fields.len() ==> #[trigger] fields[i] != "moves"@,
    ensures
        setup_of(seq!["fen"@] + fields) == Some(
            SetupView { start: StartView::Fen(joined(fields)), moves: Seq::empty() },
        ),
        setup_of(seq!["fen"@] + fields + seq!["moves"@] + moves) == Some(
            SetupView { start: StartView::Fen(joined(fields)), moves },
        ),
{
    lemma_command_words_differ();
    let end = (fields.len() + 1) as int;
    let short = seq!["fen"@] + fields;
    lemma_moves_at_is(short, 1, end);
    assert(short.subrange(1, end) =~= fields);
    let long = seq!["fen"@] + fields + seq!["moves"@] + moves;
    assert forall|i: int| 1 <= i < end implies #[trigger] long[i] != "moves"@ by {
        assert(long[i] == fields[i - 1]);
    }
    lemma_moves_at_is(long, 1, end);
    assert(long.subrange(1, end) =~= fields);
    assert(long.skip(end + 1) =~= moves);
}

/// The words that name the commands are all different.
pub proof fn lemma_command_words_differ()
    ensures
        "uci"@ != "isready"@,
        "uci"@ != "position"@,
        "uci"@ != "go"@,
        "uci"@ != "quit"@,
        "isready"@ != "position"@,
        "isready"@ != "go"@,
        "isready"@ != "quit"@,
        "position"@ != "go"@,
        "position"@ != "quit"@,
        "go"@ != "quit"@,
        "startpos"@ != "fen"@,
{
    reveal_strlit("uci");
    reveal_strlit("isready");
    reveal_strlit("position");
    reveal_strlit("go");
    reveal_strlit("quit");
    reveal_strlit("startpos");
    reveal_strlit("fen");
    assert("uci"@.len() == 3);
    assert("isready"@.len() == 7);
    assert("position"@.len() == 8);
    assert("go"@.len() == 2);
    assert("quit"@.len() == 4);
    assert("startpos"@.len() == 8);
    assert("fen"@.len() == 3);
}

/// A position command and then `go`, whatever else the two lines hold: the
/// session asks for the position that the command describes; once that is
/// set up, it asks for a search at the fixed depth; and it reports the move
/// selected in one line, `bestmove` and the text of the move as it was
/// handed in. The session then waits for the next command, with a position.
pub proof fn theorem_position_then_go(
    session: Session,
    position: Seq<char>,
    go: Seq<char>,
    setup: SetupView,
    found: Seq<char>,
)
    requires
        session.awaiting == Awaiting::Command,
        tokens_of(position).len() > 0,
        tokens_of(position)[0] == "position"@,
        setup_of(tokens_of(position).skip(1)) == Some(setup),
        tokens_of(go).len() > 0,
        tokens_of(go)[0] == "go"@,
    ensures
        ({
            let asked = respond(session, InputView::Line(position));
            let set = respond(asked.0, InputView::PositionSet);
            let searching = respond(set.0, InputView::Line(go));
            let told = respond(searching.0, InputView::BestMove(Some(found)));
            &&& asked.1 == ReplyView::SetPosition(setup)
            &&& set.1 == ReplyView::Nothing
            &&& searching.1 == ReplyView::Search(SEARCH_DEPTH as int)
            &&& told.1 == ReplyView::Write(seq!["bestmove "@ + found])
            &&& told.0 == Session { has_position: true, awaiting: Awaiting::Command }
        }),
{
    lemma_command_words_differ();
}

/// `go` can be repeated: a session with a position answers `go` with the
/// same request each time, and after the move was reported it is in the
/// state it was in before.
pub proof fn theorem_go_leaves_the_session_as_it_was(
    session: Session,
    go: Seq<char>,
    found: Option<Seq<char>>,
)
    requires
        session.awaiting == Awaiting::Command,
        session.has_position,
        tokens_of(go).len() > 0,
        tokens_of(go)[0] == "go"@,
    ensures
        respond(session, InputView::Line(go)).1 == ReplyView::Search(SEARCH_DEPTH as int),
        respond(respond(session, InputView::Line(go)).0, InputView::BestMove(found)) == (
            session,
            ReplyView::Write(seq![best_move_line(found)]),
        ),
{
    lemma_command_words_differ();
}

/// A search is asked for only in answer to a line, only while a position is
/// set, and always at the fixed depth.
pub proof fn theorem_search_needs_position(session: Session, input: InputView)
    ensures
        respond(session, input).1 is Search ==> {
            &&& session.has_position
            &&& session.awaiting == Awaiting::Command
            &&& input is Line
            &&& respond(session, input).1 == ReplyView::Search(SEARCH_DEPTH as int)
            &&& respond(session, input).0.awaiting == Awaiting::BestMove
        },
{
}

/// A session that has a position keeps having one, and a session without
/// one gets one only on word that the position it asked for was set up.
pub proof fn theorem_position_is_set_once_set_up(session: Session, input: InputView)
    ensures
        session.has_position ==> respond(session, input).0.has_position,
        !session.has_position && respond(session, input).0.has_position ==> input is PositionSet
            && session.awaiting == Awaiting::Position,
{
}

/// A word that runs up to index `n` of `s`, where white space or the end of
/// `s` follows, has length `n`.
proof fn lemma_word_len_is(s: Seq<char>, n: int)
    requires
        0 <= n <= s.len(),
        forall|k: int| 0 <= k < n ==> !is_space(#[trigger] s[k]),
        n < s.len() ==> is_space(s[n]),
    ensures
        word_len(s) == n,
    decreases n,
{
    if n > 0 {
        let rest = s.drop_first();
        assert forall|k: int| 0 <= k < n - 1 implies !is_space(#[trigger] rest[k]) by {}
        lemma_word_len_is(rest, n - 1);
    }
}

/// Whether `c` is white space.
pub fn is_whitespace(c: char) -> (space: bool)
    ensures
        space == is_space(c),
{
    let u: u32 = c as u32;
    (0x09 <= u && u <= 0x0D) || u == 0x20 || u == 0x85 || u == 0xA0 || u == 0x1680 || (0x2000 <= u
        && u <= 0x200A) || u == 0x2028 || u == 0x2029 || u == 0x202F || u == 0x205F || u == 0x3000
}

/// Splits a line into its tokens.
pub fn tokenize(line: &str) -> (tokens: Vec<String>)
    ensures
        texts(tokens@) == tokens_of(line@),
{
    let n: usize = line.unicode_len();
    let mut tokens: Vec<String> = Vec::new();
    let mut i: usize = 0;
    assert(line@.skip(0) =~= line@);
    while i < n
        invariant
            i <= n,
            n == line@.len(),
            texts(tokens@) + tokens_of(line@.skip(i as int)) == tokens_of(line@),
        decreases n - i,
    {
        let ghost rest = line@.skip(i as int);
        if is_whitespace(line.get_char(i)) {
            assert(rest.drop_first() =~= line@.skip(i + 1));
            i = i + 1;
        } else {
            let mut j: usize = i + 1;
            let mut open: bool = true;
            while open && j < n
                invariant
                    i < j <= n,
                    n == line@.len(),
                    forall|k: int| i <= k < j ==> !is_space(#[trigger] line@[k]),
                    !open ==> j < n && is_space(line@[j as int]),
                decreases (n - j) + (if open { 1int } else { 0int }),
            {
                if is_whitespace(line.get_char(j)) {
                    open = false;
                } else {
                    j = j + 1;
                }
            }
            let word = String::from_str(line.substring_char(i, j));
            proof {
                assert forall|k: int| 0 <= k < j - i implies !is_space(#[trigger] rest[k]) by {}
                lemma_word_len_is(rest, j - i);
                assert(rest.take(j - i) =~= line@.subrange(i as int, j as int));
                assert(rest.skip(j - i) =~= line@.skip(j as int));
                assert(texts(tokens@).push(word@) + tokens_of(line@.skip(j as int)) =~= texts(
                    tokens@,
                ) + (seq![word@] + tokens_of(line@.skip(j as int))));
            }
            tokens.push(word);
            i = j;
        }
    }
    tokens
}

/// Whether `token` is the word `word`.
fn is_word(token: &String, word: &str) -> (same: bool)
    ensures
        same == (token@ == word@),
{
    let word = String::from_str(word);
    *token == word
}

/// Copies out the moves that a position command lists after index `at`.
fn list_moves(tokens: &[String], at: usize) -> (moves: Vec<String>)
    requires
        at < usize::MAX,
    ensures
        texts(moves@) == moves_after(texts(tokens@), at as int),
{
    let mut moves: Vec<String> = Vec::new();
    let n: usize = tokens.len();
    if n > at && is_word(&tokens[at], "moves") {
        let mut i: usize = at + 1;
        while i < n
            invariant
                at + 1 <= i <= n,
                n == tokens@.len(),
                texts(moves@) == texts(tokens@).subrange(at + 1, i as int),
            decreases n - i,
        {
            let word = tokens[i].clone();
            assert(texts(tokens@).subrange(at + 1, i + 1) =~= texts(tokens@).subrange(
                at + 1,
                i as int,
            ).push(word@));
            moves.push(word);
            i = i + 1;
        }
    }
    moves
}

/// Finds where the word `moves` first stands at or after index `from`.
fn find_moves(tokens: &[String], from: usize) -> (at: usize)
    requires
        from <= tokens.len(),
    ensures
        at == moves_at(texts(tokens@), from as int),
        from <= at <= tokens.len(),
{
    let n: usize = tokens.len();
    let mut at: usize = from;
    let mut found: bool = false;
    while !found && at < n
        invariant
            from <= at <= n,
            n == tokens@.len(),
            moves_at(texts(tokens@), at as int) == moves_at(texts(tokens@), from as int),
            found ==> at < n && texts(tokens@)[at as int] == "moves"@,
        decreases (n - at) + (if found { 0int } else { 1int }),
    {
        if is_word(&tokens[at], "moves") {
            found = true;
        } else {
            at = at + 1;
        }
    }
    at
}

/// Joins the tokens from index `from` up to index `to` with single spaces.
fn join(tokens: &[String], from: usize, to: usize) -> (text: String)
    requires
        from < to <= tokens.len(),
    ensures
        text@ == joined(texts(tokens@).subrange(from as int, to as int)),
{
    let ghost words = texts(tokens@);
    let mut text = tokens[from].clone();
    let mut i: usize = from + 1;
    assert(words.subrange(from as int, i as int) =~= seq![words[from as int]]);
    while i < to
        invariant
            from < i <= to <= tokens@.len(),
            words == texts(tokens@),
            text@ == joined(words.subrange(from as int, i as int)),
        decreases to - i,
    {
        proof {
            reveal_strlit(" ");
            assert(words.subrange(from as int, i + 1).drop_last() =~= words.subrange(
                from as int,
                i as int,
            ));
        }
        text.append(" ");
        text.append(tokens[i].as_str());
        i = i + 1;
    }
    text
}

/// Reads what follows the word `position` in a command.
///
/// After `startpos` the word `moves`, if it comes next, begins the list of
/// moves. After `fen` every token up to the first `moves` is a field of
/// the FEN: the FEN text is these fields with a single space between each
/// two, and the list of moves is what follows that `moves`. `None` where
/// the tokens begin with neither, or no text follows `fen`.
pub fn handle_position_uci(tokens: &[String]) -> (setup: Option<Setup>)
    ensures
        setup matches Some(s) ==> setup_of(texts(tokens@)) == Some(s@),
        setup is None ==> setup_of(texts(tokens@)) is None,
{
    let n: usize = tokens.len();
    if n > 0 && is_word(&tokens[0], "startpos") {
        Some(Setup { start: Start::Startpos, moves: list_moves(tokens, 1) })
    } else if n > 1 && is_word(&tokens[0], "fen") {
        let end: usize = find_moves(tokens, 1);
        if end > 1 {
            let moves = if end < n {
                list_moves(tokens, end)
            } else {
                Vec::new()
            };
            assert(texts(moves@) =~= moves_after(texts(tokens@), end as int));
            Some(Setup { start: Start::Fen(join(tokens, 1, end)), moves })
        } else {
            None
        }
    } else {
        None
    }
}

/// Keeps, of a replay list in which each move has been read or found
/// illegible, the moves that could be read, in order. These are the moves
/// to play.
pub fn handle_moves_uci<M: Copy>(parsed: &Vec<Option<M>>) -> (moves: Vec<M>)
    ensures
        moves@ == legible(parsed@),
{
    let mut moves: Vec<M> = Vec::new();
    let n: usize = parsed.len();
    let mut i: usize = 0;
    while i < n
        invariant
            i <= n,
            n == parsed@.len(),
            moves@ == legible(parsed@.take(i as int)),
        decreases n - i,
    {
        assert(parsed@.take(i + 1).drop_last() =~= parsed@.take(i as int));
        match parsed[i] {
            Some(m) => {
                moves.push(m);
            },
            None => {},
        }
        i = i + 1;
    }
    assert(parsed@.take(n as int) =~= parsed@);
    moves
}

/// The line that reports the outcome of a search.
fn write_best_move(found: &Option<String>) -> (line: String)
    ensures
        line@ == best_move_line(
            match found {
                Some(found) => Some(found@),
                None => None,
            },
        ),
{
    let line = String::from_str("bestmove ");
    match found {
        Some(found) => line.concat(found.as_str()),
        None => line.concat("0000"),
    }
}

/// Answers a line of input while the session waits for a command.
fn respond_to_command(session: &mut Session, line: &str) -> (reply: Reply)
    ensures
        (*final(session), reply@) == respond_to_line(*old(session), tokens_of(line@)),
{
    let tokens = tokenize(line);
    let n: usize = tokens.len();
    if n == 0 {
        return Reply::Nothing;
    }
    if is_word(&tokens[0], "uci") {
        let mut lines: Vec<String> = Vec::new();
        lines.push(String::from_str("id name tmforshaw_engine"));
        lines.push(String::from_str("id author tmforshaw"));
        lines.push(String::from_str("uciok"));
        assert(texts(lines@) =~= seq![
            "id name tmforshaw_engine"@,
            "id author tmforshaw"@,
            "uciok"@,
        ]);
        Reply::Write(lines)
    } else if is_word(&tokens[0], "isready") {
        let mut lines: Vec<String> = Vec::new();
        lines.push(String::from_str("readyok"));
        assert(texts(lines@) =~= seq!["readyok"@]);
        Reply::Write(lines)
    } else if is_word(&tokens[0], "position") {
        let rest = slice_subrange(tokens.as_slice(), 1, n);
        assert(texts(rest@) =~= texts(tokens@).skip(1));
        match handle_position_uci(rest) {
            Some(setup) => {
                session.awaiting = Awaiting::Position;
                Reply::SetPosition(setup)
            },
            None => Reply::Nothing,
        }
    } else if is_word(&tokens[0], "go") {
        if session.has_position {
            session.awaiting = Awaiting::BestMove;
            Reply::Search(SEARCH_DEPTH)
        } else {
            let mut lines: Vec<String> = Vec::new();
            lines.push(write_best_move(&None));
            assert(texts(lines@) =~= seq![best_move_line(None)]);
            Reply::Write(lines)
        }
    } else if is_word(&tokens[0], "quit") {
        Reply::Quit
    } else {
        Reply::Nothing
    }
}

impl Session {
    /// A session with no current position, waiting for its first command.
    pub fn new() -> (session: Session)
        ensures
            session == (Session { has_position: false, awaiting: Awaiting::Command }),
    {
        Session { has_position: false, awaiting: Awaiting::Command }
    }
}

/// One step of the protocol: takes in `input` and says what is to be
/// written or done.
///
/// While the session waits for a command, a line is split into tokens and
/// answered by its first token: `uci` with the engine's name and author and
/// `uciok`; `isready` with `readyok`; `position` with the position to set
/// up; `go` with the search to run, or, while no position has been set,
/// with the null move; `quit` with the end of the session. A position
/// command makes the session wait for word on the position: once set up it
/// is the current position; if refused, the session says so in an `info`
/// line and the position it had stays. A search makes the session wait for
/// the move selected, which it reports in a `bestmove` line, with the null
/// move `0000` if there is none. Any other input is passed over.
pub fn respond_to_uci(session: &mut Session, input: Input) -> (reply: Reply)
    ensures
        (*final(session), reply@) == respond(*old(session), input@),
{
    match (session.awaiting, input) {
        (Awaiting::Command, Input::Line(line)) => respond_to_command(session, line.as_str()),
        (Awaiting::Position, Input::PositionSet) => {
            session.has_position = true;
            session.awaiting = Awaiting::Command;
            Reply::Nothing
        },
        (Awaiting::Position, Input::PositionRefused) => {
            session.awaiting = Awaiting::Command;
            let mut lines: Vec<String> = Vec::new();
            lines.push(String::from_str("info string invalid fen"));
            assert(texts(lines@) =~= seq!["info string invalid fen"@]);
            Reply::Write(lines)
        },
        (Awaiting::BestMove, Input::BestMove(found)) => {
            session.awaiting = Awaiting::Command;
            let mut lines: Vec<String> = Vec::new();
            lines.push(write_best_move(&found));
            assert(texts(lines@) =~= seq![best_move_line(input@->BestMove_0)]);
            Reply::Write(lines)
        },
        _ => Reply::Nothing,
    }
}

} // verus!
