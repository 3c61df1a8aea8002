use game_play::api::{extract_turn, parse_player_page, parse_score_digits, throttle_pause,
    turn_reached, Coordinate, StatusResponse};
use game_play::board::FiveInRow;
use game_play::error::{Error, FetchError};
use game_play::gameplay::GamePlay;
use game_play::mv::FiveInRowMove;
use game_play::score::Score;
use game_play::suggestion::Suggestion;

#[test]
fn score_algebra_laws_on_values() {
    // adding zero changes nothing
    assert_eq!(Score::Win.plus(Score::from_frac(0, 1)), Score::Win);
    assert_eq!(Score::Loss.plus(Score::from_frac(0, 1)), Score::Loss);
    assert_eq!(
        Score::from_frac(7, 2).plus(Score::from_frac(0, 1)),
        Score::from_frac(7, 2)
    );
    // opposite absolutes neutralise
    assert_eq!(Score::Win.plus(Score::Loss), Score::from_frac(0, 1));
    assert_eq!(Score::Loss.plus(Score::Win), Score::from_frac(0, 1));
    // absorbing ends
    assert_eq!(Score::Win.plus(Score::from_frac(-1000, 1)), Score::Win);
    assert_eq!(Score::Loss.plus(Score::from_frac(1000, 1)), Score::Loss);
    // multiplication by a negative constant swaps the ends
    assert_eq!(Score::Win.times_frac(-1, 1), Score::Loss);
    assert_eq!(Score::Loss.times_frac(-1, 1), Score::Win);
    // the absolute value flips a negative number exactly
    assert_eq!(Score::from_frac(-3, 1).abs(), Score::from_frac(3, 1));
    assert_eq!(Score::Loss.abs(), Score::Win);
    // subtraction is addition of the negation
    assert_eq!(
        Score::from_frac(5, 1).minus(Score::from_frac(2, 1)),
        Score::from_frac(3, 1)
    );
    // a decided game is finished
    assert!(Score::Win.is_finished());
    assert!(Score::Loss.is_finished());
    assert!(!Score::from_frac(3, 1).is_finished());
}

#[test]
fn score_tolerance_boundary() {
    // 0.010 apart is still equal; 0.011 apart is not
    assert!(Score::from_frac(1010, 1000) == Score::from_frac(1, 1));
    assert!(Score::from_frac(1011, 1000) > Score::from_frac(1, 1));
    assert!(Score::from_frac(989, 1000) < Score::from_frac(1, 1));
}

#[test]
fn empty_board_has_single_origin_candidate() {
    let game = FiveInRow::create_empty();
    let mine = game.get_possible_moves(true);
    assert_eq!(mine.len(), 1);
    assert_eq!(mine[0], FiveInRowMove::Mine(0, 0));
    let rivals = game.get_possible_moves(false);
    assert_eq!(rivals.len(), 1);
    assert_eq!(rivals[0], FiveInRowMove::Rivals(0, 0));
}

#[test]
fn candidates_are_unoccupied_and_near() {
    let mut game = FiveInRow::create_empty();
    game.do_move(FiveInRowMove::Mine(2, 3)).unwrap();
    game.do_move(FiveInRowMove::Rivals(3, 3)).unwrap();
    let cands = game.get_possible_moves(true);
    assert!(!cands.is_empty());
    for c in &cands {
        for m in &game.moves {
            assert!(!(c.get_x() == m.get_x() && c.get_y() == m.get_y()));
        }
        assert!(c.get_distance_from_moves(&game.moves) <= 3);
    }
}

#[test]
fn single_stone_board_scores_four_points() {
    // one stone contributes 1.0 on each of its four lines
    let game = FiveInRow::from_moves(vec![FiveInRowMove::Mine(0, 0)]);
    assert_eq!(game.get_score(), Score::from_frac(4, 1));
}

#[test]
fn incorrect_move_error_carries_the_move() {
    let mut game = FiveInRow::from_moves(vec![FiveInRowMove::Mine(4, 5)]);
    let r = game.do_move(FiveInRowMove::Rivals(4, 5));
    assert_eq!(r, Err(Error::IncorrectMove(FiveInRowMove::Rivals(4, 5))));
}

#[test]
fn empty_board_suggests_origin() {
    let mut game_play = GamePlay::from_game(FiveInRow::create_empty());
    // the empty board always suggests the origin
    let s = game_play.suggest_move(true).unwrap();
    assert_eq!(*s.get_move(), FiveInRowMove::Mine(0, 0));
}

#[test]
fn add_move_reuses_the_matching_subtree() {
    let mut game_play = GamePlay::from_game(FiveInRow::from_moves(vec![
        FiveInRowMove::Mine(0, 0),
        FiveInRowMove::Rivals(0, 1),
    ]));
    game_play.compute_suggestions(true, Vec::new(), 1).unwrap();
    let best = *game_play.suggest_move(true).unwrap().get_move();
    game_play.add_move(best).unwrap();
    // the retained forest holds the rival's replies below the chosen move
    for s in &game_play.suggestions {
        assert!(!s.get_move().is_same_type(Some(&best)));
    }
    // replaying the same cell is rejected
    assert_eq!(
        game_play.add_move(best),
        Err(Error::IncorrectMove(best))
    );
}

#[test]
fn add_move_without_matching_root_clears_forest() {
    let mut game_play = GamePlay::from_game(FiveInRow::create_empty());
    game_play.compute_suggestions(true, Vec::new(), 0).unwrap();
    game_play.add_move(FiveInRowMove::Rivals(9, 9)).unwrap();
    assert!(game_play.suggestions.is_empty());
}

#[test]
fn extend_suggestions_fails_on_unknown_path() {
    let mut forest = vec![Suggestion::new(FiveInRowMove::Mine(0, 0), Score::from_frac(1, 1))];
    let path = vec![FiveInRowMove::Mine(5, 5)];
    let r = Suggestion::extend_suggestions(&mut forest, &path, Vec::new());
    assert_eq!(r, Err(Error::SuggestionComputationError));
}

#[test]
fn deep_score_of_rival_node_takes_maximum() {
    let mut suggestion = Suggestion::new(FiveInRowMove::Rivals(0, 0), Score::from_frac(1, 1));
    let parents: Vec<FiveInRowMove> = Vec::new();
    suggestion
        .add_suggestions(
            &parents,
            vec![
                Suggestion::new(FiveInRowMove::Mine(1, 0), Score::from_frac(0, 1)),
                Suggestion::new(FiveInRowMove::Mine(1, 1), Score::from_frac(-1, 1)),
                Suggestion::new(FiveInRowMove::Mine(1, -1), Score::from_frac(2, 1)),
            ],
        )
        .unwrap();
    assert_eq!(suggestion.get_deep_score(), Score::from_frac(2, 1));
}

#[test]
fn fetch_error_mapping() {
    assert_eq!(Error::from(FetchError::RivalTimeoutError), Error::TimeoutError);
    assert_eq!(
        Error::from(FetchError::FinishedUnexpectedly),
        Error::FinishedUnexpectedly
    );
    assert_eq!(Error::from(FetchError::Invalid), Error::Invalid);
    assert_eq!(Error::from(FetchError::JsonErr), Error::ApiError(FetchError::JsonErr));
}

#[test]
fn parse_score_digits_values() {
    assert_eq!(parse_score_digits("0"), Some(0));
    assert_eq!(parse_score_digits("1234"), Some(1234));
    assert_eq!(parse_score_digits("2147483647"), Some(2147483647));
    assert_eq!(parse_score_digits("2147483648"), None);
    assert_eq!(parse_score_digits(""), None);
    assert_eq!(parse_score_digits("12a4"), None);
}

#[test]
fn parse_player_page_reads_name_and_score() {
    let body = "<html><h1>Player: Castling</h1>\n<div class=\"row\">\n<div class=\"col-md-3\">\nCelkem bod\u{16f}:\n</div>\n<div class=\"col-md-9\">\n1234\n</div>\n</div></html>";
    let resp = parse_player_page(body, &String::from("u-1")).unwrap();
    assert_eq!(resp.id, String::from("u-1"));
    assert_eq!(resp.name, String::from("Castling"));
    assert_eq!(resp.score, Some(1234));
}

#[test]
fn parse_player_page_without_heading_fails() {
    let r = parse_player_page("<html><p>nothing here</p></html>", &String::from("u-1"));
    assert!(matches!(r, Err(FetchError::ParseError)));
}

#[test]
fn turn_decisions() {
    let status = StatusResponse {
        statusCode: 200,
        playerCrossId: Some(String::from("me")),
        playerCircleId: Some(String::from("them")),
        actualPlayerId: Some(String::from("me")),
        winnerId: None,
        coordinates: vec![Coordinate {
            playerId: String::from("them"),
            x: 3,
            y: -4,
        }],
    };
    assert!(turn_reached(&status, &String::from("me")));
    assert!(!turn_reached(&status, &String::from("them")));

    let (mv, winner) = extract_turn(&status, &String::from("me"));
    assert_eq!(mv, Some(FiveInRowMove::Rivals(3, -4)));
    assert_eq!(winner, None);

    let finished = StatusResponse {
        statusCode: 200,
        playerCrossId: None,
        playerCircleId: None,
        actualPlayerId: None,
        winnerId: Some(String::from("them")),
        coordinates: Vec::new(),
    };
    assert!(turn_reached(&finished, &String::from("me")));
    let (mv2, winner2) = extract_turn(&finished, &String::from("me"));
    assert_eq!(mv2, None);
    assert_eq!(winner2, Some(String::from("them")));
}

#[test]
fn throttle_pauses_until_a_second_has_passed() {
    assert_eq!(throttle_pause(300, 0), Some(800));
    assert_eq!(throttle_pause(1500, 1000), Some(600));
    assert_eq!(throttle_pause(2500, 1000), None);
}
