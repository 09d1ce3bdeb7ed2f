use chess_engine::protocol::{
    handle_moves_uci, handle_position_uci, is_whitespace, respond_to_uci, tokenize, Awaiting,
    Input, Reply, Session, Setup, Start, SEARCH_DEPTH,
};

fn words(list: &[&str]) -> Vec<String> {
    list.iter().map(|word| word.to_string()).collect()
}

fn line(session: &mut Session, text: &str) -> Reply {
    respond_to_uci(session, Input::Line(text.to_string()))
}

fn with_position() -> Session {
    let mut session = Session::new();
    let reply = line(&mut session, "position startpos");
    assert!(matches!(reply, Reply::SetPosition(_)));
    assert_eq!(respond_to_uci(&mut session, Input::PositionSet), Reply::Nothing);
    session
}

#[test]
fn white_space_is_what_std_calls_white_space() {
    for code in 0..=0x10FFFF_u32 {
        if let Some(c) = char::from_u32(code) {
            assert_eq!(is_whitespace(c), c.is_whitespace(), "U+{:04X}", code);
        }
    }
}

#[test]
fn tokenize_splits_as_std_does() {
    let samples = [
        "",
        " ",
        "uci",
        "  uci  ",
        "position startpos moves e2e4 e7e5",
        "position\tfen\t8/8/8/8/8/8/8/8  moves  a1a2",
        "\n\r\x0b\x0c go \u{85}\u{a0}now\u{1680}then\u{2003}x\u{2028}y\u{2029}z\u{202f}\u{205f}\u{3000}",
        "a\u{200b}b c",
        "single",
        "trailing ",
        " leading",
        "é ü  ß",
    ];
    for sample in samples {
        let expected: Vec<String> = sample.split_whitespace().map(String::from).collect();
        assert_eq!(tokenize(sample), expected, "{:?}", sample);
    }
}

#[test]
fn tokenize_gives_the_words_in_order() {
    assert_eq!(
        tokenize("position startpos moves e2e4"),
        words(&["position", "startpos", "moves", "e2e4"])
    );
    assert_eq!(tokenize("   "), Vec::<String>::new());
    assert_eq!(tokenize(""), Vec::<String>::new());
}

#[test]
fn a_new_session_has_no_position() {
    let session = Session::new();
    assert_eq!(session, Session { has_position: false, awaiting: Awaiting::Command });
}

#[test]
fn uci_is_answered_with_name_author_and_uciok() {
    let mut session = Session::new();
    assert_eq!(
        line(&mut session, "uci"),
        Reply::Write(words(&["id name tmforshaw_engine", "id author tmforshaw", "uciok"]))
    );
    assert_eq!(session, Session::new());
}

#[test]
fn isready_is_answered_with_readyok() {
    let mut session = Session::new();
    assert_eq!(line(&mut session, "isready"), Reply::Write(words(&["readyok"])));
    assert_eq!(line(&mut session, "  isready   now"), Reply::Write(words(&["readyok"])));
    assert_eq!(session, Session::new());
}

#[test]
fn quit_ends_the_session() {
    let mut session = Session::new();
    assert_eq!(line(&mut session, "quit"), Reply::Quit);
}

#[test]
fn blank_and_unknown_lines_are_passed_over() {
    let mut session = with_position();
    let before = session;
    for text in ["", "   ", "\t", "hello", "ucinewgame", "UCI", "stop", "positions startpos"] {
        assert_eq!(line(&mut session, text), Reply::Nothing, "{:?}", text);
        assert_eq!(session, before);
    }
}

#[test]
fn position_startpos_asks_for_the_initial_position() {
    let mut session = Session::new();
    assert_eq!(
        line(&mut session, "position startpos"),
        Reply::SetPosition(Setup { start: Start::Startpos, moves: vec![] })
    );
    assert_eq!(session, Session { has_position: false, awaiting: Awaiting::Position });
    assert_eq!(respond_to_uci(&mut session, Input::PositionSet), Reply::Nothing);
    assert_eq!(session, Session { has_position: true, awaiting: Awaiting::Command });
}

#[test]
fn position_startpos_with_moves_lists_them_in_order() {
    let mut session = Session::new();
    assert_eq!(
        line(&mut session, "position startpos moves e2e4 e7e5 g1f3"),
        Reply::SetPosition(Setup {
            start: Start::Startpos,
            moves: words(&["e2e4", "e7e5", "g1f3"]),
        })
    );
}

#[test]
fn position_fen_takes_all_the_fields_of_the_fen() {
    let mut session = Session::new();
    assert_eq!(
        line(&mut session, "position fen 4k3/8/8/8/8/8/8/4K2Q b - - 0 1 moves e8d8"),
        Reply::SetPosition(Setup {
            start: Start::Fen("4k3/8/8/8/8/8/8/4K2Q b - - 0 1".to_string()),
            moves: words(&["e8d8"]),
        })
    );
    assert_eq!(session.awaiting, Awaiting::Position);
}

#[test]
fn position_fen_without_moves_takes_the_rest_of_the_line() {
    let mut session = Session::new();
    assert_eq!(
        line(
            &mut session,
            "position fen rnbqkbnr/pppppppp/8/8/8/8/PPPPPPPP/RNBQKBNR w KQkq - 0 1"
        ),
        Reply::SetPosition(Setup {
            start: Start::Fen(
                "rnbqkbnr/pppppppp/8/8/8/8/PPPPPPPP/RNBQKBNR w KQkq - 0 1".to_string()
            ),
            moves: vec![],
        })
    );
}

#[test]
fn the_fields_of_a_fen_are_joined_by_single_spaces() {
    let mut session = Session::new();
    assert_eq!(
        line(
            &mut session,
            "  position \t fen   8/8/8/8/8/8/8/K6k \t w   - -  12 40   moves  a1a2 h1h2 "
        ),
        Reply::SetPosition(Setup {
            start: Start::Fen("8/8/8/8/8/8/8/K6k w - - 12 40".to_string()),
            moves: words(&["a1a2", "h1h2"]),
        })
    );
}

#[test]
fn position_fen_with_one_field_takes_that_field() {
    let mut session = Session::new();
    assert_eq!(
        line(&mut session, "position fen 8/8/8/8/8/8/8/K6k moves a1a2 h1h2"),
        Reply::SetPosition(Setup {
            start: Start::Fen("8/8/8/8/8/8/8/K6k".to_string()),
            moves: words(&["a1a2", "h1h2"]),
        })
    );
}

#[test]
fn handle_position_uci_reads_both_forms() {
    assert_eq!(
        handle_position_uci(&words(&["startpos"])),
        Some(Setup { start: Start::Startpos, moves: vec![] })
    );
    assert_eq!(
        handle_position_uci(&words(&["startpos", "moves"])),
        Some(Setup { start: Start::Startpos, moves: vec![] })
    );
    assert_eq!(
        handle_position_uci(&words(&["startpos", "moves", "e2e4"])),
        Some(Setup { start: Start::Startpos, moves: words(&["e2e4"]) })
    );
    assert_eq!(
        handle_position_uci(&words(&["startpos", "e2e4", "moves", "d2d4"])),
        Some(Setup { start: Start::Startpos, moves: vec![] })
    );
    assert_eq!(
        handle_position_uci(&words(&["fen", "8/8/8/8/8/8/8/8"])),
        Some(Setup { start: Start::Fen("8/8/8/8/8/8/8/8".to_string()), moves: vec![] })
    );
    assert_eq!(
        handle_position_uci(&words(&["fen", "8/8/8/8/8/8/8/8", "w", "moves", "a1a2"])),
        Some(Setup {
            start: Start::Fen("8/8/8/8/8/8/8/8 w".to_string()),
            moves: words(&["a1a2"]),
        })
    );
    assert_eq!(
        handle_position_uci(&words(&["fen", "4k3/8/8/8/8/8/8/4K2Q", "b", "-", "-", "0", "1"])),
        Some(Setup {
            start: Start::Fen("4k3/8/8/8/8/8/8/4K2Q b - - 0 1".to_string()),
            moves: vec![],
        })
    );
    assert_eq!(
        handle_position_uci(&words(&["fen", "x", "moves", "a1a2", "zz", "b1b2"])),
        Some(Setup { start: Start::Fen("x".to_string()), moves: words(&["a1a2", "zz", "b1b2"]) })
    );
    assert_eq!(
        handle_position_uci(&words(&["fen", "x", "y", "moves"])),
        Some(Setup { start: Start::Fen("x y".to_string()), moves: vec![] })
    );
    // Only the first `moves` ends the FEN; a later one is a move like any
    // other, to be read or dropped with the rest.
    assert_eq!(
        handle_position_uci(&words(&["fen", "x", "moves", "a1a2", "moves", "b1b2"])),
        Some(Setup {
            start: Start::Fen("x".to_string()),
            moves: words(&["a1a2", "moves", "b1b2"]),
        })
    );
}

#[test]
fn handle_position_uci_reads_nothing_else() {
    assert_eq!(handle_position_uci(&words(&[])), None);
    assert_eq!(handle_position_uci(&words(&["fen"])), None);
    assert_eq!(handle_position_uci(&words(&["fen", "moves"])), None);
    assert_eq!(handle_position_uci(&words(&["fen", "moves", "e2e4"])), None);
    assert_eq!(handle_position_uci(&words(&["moves", "e2e4"])), None);
    assert_eq!(handle_position_uci(&words(&["Startpos"])), None);
    assert_eq!(handle_position_uci(&words(&["current"])), None);
}

#[test]
fn an_ill_formed_position_command_is_passed_over() {
    let mut session = with_position();
    let before = session;
    for text in [
        "position",
        "position fen",
        "position fen moves e2e4",
        "position here",
        "position moves e2e4",
    ] {
        assert_eq!(line(&mut session, text), Reply::Nothing, "{:?}", text);
        assert_eq!(session, before);
    }
}

#[test]
fn a_refused_position_is_reported_and_the_old_one_stays() {
    let mut session = with_position();
    assert!(matches!(line(&mut session, "position fen not-a-fen"), Reply::SetPosition(_)));
    assert_eq!(
        respond_to_uci(&mut session, Input::PositionRefused),
        Reply::Write(words(&["info string invalid fen"]))
    );
    assert_eq!(session, Session { has_position: true, awaiting: Awaiting::Command });

    let mut fresh = Session::new();
    assert!(matches!(line(&mut fresh, "position fen not-a-fen"), Reply::SetPosition(_)));
    assert_eq!(
        respond_to_uci(&mut fresh, Input::PositionRefused),
        Reply::Write(words(&["info string invalid fen"]))
    );
    assert_eq!(fresh, Session::new());
    assert_eq!(line(&mut fresh, "go"), Reply::Write(words(&["bestmove 0000"])));
}

#[test]
fn go_without_a_position_answers_with_the_null_move() {
    let mut session = Session::new();
    assert_eq!(line(&mut session, "go"), Reply::Write(words(&["bestmove 0000"])));
    assert_eq!(session, Session::new());
}

#[test]
fn go_with_a_position_asks_for_a_search_at_the_fixed_depth() {
    let mut session = with_position();
    assert_eq!(SEARCH_DEPTH, 4);
    assert_eq!(line(&mut session, "go"), Reply::Search(4));
    assert_eq!(session, Session { has_position: true, awaiting: Awaiting::BestMove });
    assert_eq!(
        respond_to_uci(&mut session, Input::BestMove(Some("e7e5".to_string()))),
        Reply::Write(words(&["bestmove e7e5"]))
    );
    assert_eq!(session, Session { has_position: true, awaiting: Awaiting::Command });
}

#[test]
fn a_search_without_a_move_answers_with_the_null_move() {
    let mut session = with_position();
    assert_eq!(line(&mut session, "go"), Reply::Search(4));
    assert_eq!(
        respond_to_uci(&mut session, Input::BestMove(None)),
        Reply::Write(words(&["bestmove 0000"]))
    );
    assert_eq!(session, Session { has_position: true, awaiting: Awaiting::Command });
}

#[test]
fn input_that_is_not_awaited_is_passed_over() {
    let mut session = Session::new();
    for _ in 0..2 {
        assert_eq!(respond_to_uci(&mut session, Input::PositionSet), Reply::Nothing);
        assert_eq!(respond_to_uci(&mut session, Input::PositionRefused), Reply::Nothing);
        assert_eq!(respond_to_uci(&mut session, Input::BestMove(None)), Reply::Nothing);
        assert_eq!(session, Session::new());
    }
    assert!(matches!(line(&mut session, "position startpos"), Reply::SetPosition(_)));
    let waiting = session;
    assert_eq!(line(&mut session, "uci"), Reply::Nothing);
    assert_eq!(respond_to_uci(&mut session, Input::BestMove(None)), Reply::Nothing);
    assert_eq!(session, waiting);
    assert_eq!(respond_to_uci(&mut session, Input::PositionSet), Reply::Nothing);
    assert_eq!(line(&mut session, "go"), Reply::Search(4));
    let searching = session;
    assert_eq!(line(&mut session, "quit"), Reply::Nothing);
    assert_eq!(respond_to_uci(&mut session, Input::PositionSet), Reply::Nothing);
    assert_eq!(session, searching);
}

#[test]
fn handle_moves_uci_drops_what_could_not_be_read() {
    assert_eq!(handle_moves_uci::<u8>(&vec![]), Vec::<u8>::new());
    assert_eq!(handle_moves_uci::<u8>(&vec![None, None]), Vec::<u8>::new());
    assert_eq!(handle_moves_uci(&vec![Some(1u8), Some(2), Some(3)]), vec![1, 2, 3]);
    assert_eq!(
        handle_moves_uci(&vec![None, Some(7u8), None, Some(5), Some(7), None]),
        vec![7, 5, 7]
    );
}

#[test]
fn a_session_runs_command_by_command() {
    let mut session = Session::new();
    assert!(matches!(line(&mut session, "uci"), Reply::Write(_)));
    assert!(matches!(line(&mut session, "isready"), Reply::Write(_)));
    assert_eq!(
        line(&mut session, "position startpos moves e2e4"),
        Reply::SetPosition(Setup { start: Start::Startpos, moves: words(&["e2e4"]) })
    );
    assert_eq!(respond_to_uci(&mut session, Input::PositionSet), Reply::Nothing);
    assert_eq!(line(&mut session, "go"), Reply::Search(4));
    assert_eq!(
        respond_to_uci(&mut session, Input::BestMove(Some("g8f6".to_string()))),
        Reply::Write(words(&["bestmove g8f6"]))
    );
    assert_eq!(line(&mut session, "quit"), Reply::Quit);
}

#[test]
fn the_fen_text_splits_into_the_fields_it_was_joined_from() {
    let commands = [
        "position fen 4k3/8/8/8/8/8/8/4K2Q b - - 0 1 moves e8d8",
        "position fen rnbqkbnr/pppppppp/8/8/8/8/PPPPPPPP/RNBQKBNR w KQkq - 0 1",
        "position\tfen  8/8/8/8/8/8/8/K6k \u{2003} w  -  -  3   9  moves",
        "position fen lonely",
    ];
    for text in commands {
        let tokens = tokenize(text);
        let end = tokens.iter().position(|token| token == "moves").unwrap_or(tokens.len());
        let mut session = Session::new();
        match line(&mut session, text) {
            Reply::SetPosition(Setup { start: Start::Fen(fen), moves }) => {
                assert_eq!(tokenize(&fen), tokens[2..end].to_vec(), "{:?}", text);
                assert_eq!(fen, tokens[2..end].join(" "));
                assert_eq!(moves, tokens[(end + 1).min(tokens.len())..].to_vec());
            }
            other => panic!("{:?} gave {:?}", text, other),
        }
    }
}

#[test]
fn go_can_be_repeated() {
    let mut session = with_position();
    let before = session;
    for _ in 0..3 {
        assert_eq!(line(&mut session, "go"), Reply::Search(4));
        assert_eq!(
            respond_to_uci(&mut session, Input::BestMove(Some("e2e4".to_string()))),
            Reply::Write(words(&["bestmove e2e4"]))
        );
        assert_eq!(session, before);
    }
}
