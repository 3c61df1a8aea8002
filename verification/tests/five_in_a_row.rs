use game_play::api::Coordinate;
use game_play::board::FiveInRow;
use game_play::gameplay::GamePlay;
use game_play::mv::FiveInRowMove;
use game_play::score::Score;

#[test]
fn five_in_a_row_it_creates_empty_game() {
    let game = FiveInRow::create_empty();
    assert_eq!(game.moves.len(), 0);
    assert_eq!(game.get_score(), Score::from_frac(0, 1));
}

#[test]
fn five_in_a_row_it_does_new_move() {
    let mut game = FiveInRow::create_empty();
    assert_eq!(game.moves.len(), 0);
    assert!(game.do_move(FiveInRowMove::Mine(0, 0)).is_ok());
    assert_eq!(game.moves.len(), 1);
    assert!(game.do_move(FiveInRowMove::Rivals(0, 0)).is_err());
    assert_eq!(game.moves.len(), 1);
    assert!(game.do_move(FiveInRowMove::Rivals(0, 1)).is_ok());
    assert_eq!(game.moves.len(), 2);
}

#[test]
fn it_does_new_move() {
    let mut game = FiveInRow::create_empty();
    assert_eq!(game.moves.len(), 0);
    assert!(game.do_move(FiveInRowMove::Mine(0, 0)).is_ok());
    assert_eq!(game.moves.len(), 1);
    assert!(game.do_move(FiveInRowMove::Rivals(0, 0)).is_err());
    assert_eq!(game.moves.len(), 1);
    assert!(game.do_move(FiveInRowMove::Rivals(0, 1)).is_ok());
    assert_eq!(game.moves.len(), 2);
}

#[test]
fn five_in_row_it_does_new_move() {
    let mut game = FiveInRow::create_empty();
    assert_eq!(game.moves.len(), 0);
    assert!(game.do_move(FiveInRowMove::Mine(0, 0)).is_ok());
    assert_eq!(game.moves.len(), 1);
    assert!(game.do_move(FiveInRowMove::Rivals(0, 0)).is_err());
    assert_eq!(game.moves.len(), 1);
    assert!(game.do_move(FiveInRowMove::Rivals(0, 1)).is_ok());
    assert_eq!(game.moves.len(), 2);
}

#[test]
fn five_in_a_row_it_creates_game_from_coordinates() {
    let mut coords = Vec::<Coordinate>::new();
    coords.push(Coordinate {
        playerId: String::from("pl1"),
        x: 0,
        y: 0,
    });
    coords.push(Coordinate {
        playerId: String::from("pl2"),
        x: 0,
        y: 1,
    });

    let game = FiveInRow::from_api_coordinates(coords, &String::from("pl1"));
    assert_eq!(game.moves.len(), 2);
    assert_eq!(*game.moves.get(0).unwrap(), FiveInRowMove::Mine(0, 0));
    assert_eq!(*game.moves.get(1).unwrap(), FiveInRowMove::Rivals(0, 1));
}

#[test]
fn five_in_a_row_it_computes_score_for_row() {
    let mv = FiveInRowMove::Mine(0, 0);
    let mvr = FiveInRowMove::Rivals(0, 0);

    let score_x = FiveInRow::score_from_row(&mv, &Vec::from([mv]));
    let score_xx = FiveInRow::score_from_row(&mv, &Vec::from([mv, FiveInRowMove::Mine(0, 1)]));
    let score_xxx = FiveInRow::score_from_row(
        &mv,
        &Vec::from([mv, FiveInRowMove::Mine(0, 1), FiveInRowMove::Mine(0, 2)]),
    );
    let score_xxxx = FiveInRow::score_from_row(
        &mv,
        &Vec::from([
            mv,
            FiveInRowMove::Mine(0, 1),
            FiveInRowMove::Mine(0, 2),
            FiveInRowMove::Mine(0, 3),
        ]),
    );
    let score_xxxxx = FiveInRow::score_from_row(
        &mv,
        &Vec::from([
            mv,
            FiveInRowMove::Mine(0, 1),
            FiveInRowMove::Mine(0, 2),
            FiveInRowMove::Mine(0, 3),
            FiveInRowMove::Mine(0, 4),
        ]),
    );
    let score_xxxox = FiveInRow::score_from_row(
        &mv,
        &Vec::from([
            mv,
            FiveInRowMove::Mine(0, 1),
            FiveInRowMove::Mine(0, 2),
            FiveInRowMove::Rivals(0, 3),
            FiveInRowMove::Mine(0, 4),
        ]),
    );

    let score_xxxxex = FiveInRow::score_from_row(
        &mv,
        &Vec::from([
            mv,
            FiveInRowMove::Mine(0, 1),
            FiveInRowMove::Mine(0, 2),
            FiveInRowMove::Mine(0, 3),
            FiveInRowMove::Mine(0, 6),
        ]),
    );

    let score_ooooo = FiveInRow::score_from_row(
        &mvr,
        &Vec::from([
            mvr,
            FiveInRowMove::Rivals(0, 1),
            FiveInRowMove::Rivals(0, 2),
            FiveInRowMove::Rivals(0, 3),
            FiveInRowMove::Rivals(0, 4),
        ]),
    );

    let score_oxxxxo = FiveInRow::score_from_row(
        &mv,
        &Vec::from([
            FiveInRowMove::Rivals(0, -1),
            mv,
            FiveInRowMove::Mine(0, 1),
            FiveInRowMove::Mine(0, 2),
            FiveInRowMove::Mine(0, 3),
            FiveInRowMove::Rivals(0, 4),
        ]),
    );

    let score_oxxxxeo = FiveInRow::score_from_row(
        &mv,
        &Vec::from([
            FiveInRowMove::Rivals(0, -1),
            mv,
            FiveInRowMove::Mine(0, 1),
            FiveInRowMove::Mine(0, 2),
            FiveInRowMove::Mine(0, 3),
            FiveInRowMove::Rivals(0, 5),
        ]),
    );

    assert!(score_oxxxxo < score_x);
    assert!(score_x < score_xx);
    assert!(score_xx < score_xxx);
    assert!(score_xxx < score_oxxxxeo);
    assert!(score_oxxxxeo < score_xxxx);
    assert!(score_xxxx < score_xxxxx);
    assert!(score_xxxx < score_xxxxex);
    assert_ne!(score_xxxxex, Score::Win);
    assert_eq!(score_oxxxxo, Score::from_frac(0, 1));
    assert_eq!(score_xxxxx, Score::Win);
    assert_eq!(score_ooooo, Score::Loss);

    assert!(score_xxx > score_xxxox);
}

#[test]
fn it_replays_game_1() {
    let moves = Vec::from([
        FiveInRowMove::Mine(0, 0),
        FiveInRowMove::Rivals(0, 1),
        FiveInRowMove::Mine(0, -1),
        FiveInRowMove::Rivals(0, 2),
        FiveInRowMove::Mine(0, 4),
        FiveInRowMove::Rivals(-1, 2),
        FiveInRowMove::Mine(0, -2),
        FiveInRowMove::Rivals(0, -3),
        FiveInRowMove::Mine(0, 5),
        FiveInRowMove::Rivals(1, 2),
        FiveInRowMove::Mine(0, 6),
        FiveInRowMove::Rivals(2, 2),
        FiveInRowMove::Mine(0, 7),
    ]);
    let game = FiveInRow::from_moves(moves);
    let score = game.get_score();
    assert!(score < Score::Win);
    assert!(score > Score::Loss);
    assert!(score < Score::from_frac(0, 1));
}

#[test]
fn it_suggests_correct_move_1() {
    let moves = Vec::from([
        FiveInRowMove::Rivals(0, 0),
        FiveInRowMove::Mine(0, -1),
        FiveInRowMove::Rivals(0, 1),
        FiveInRowMove::Mine(0, -2),
        FiveInRowMove::Rivals(0, 2),
        FiveInRowMove::Mine(0, -3),
        FiveInRowMove::Rivals(0, 3),
    ]);
    let game = FiveInRow::from_moves(moves);
    let mut game_play = GamePlay::from_game(game);
    let suggested = game_play.suggest_move(true).unwrap();
    assert_eq!(*suggested.get_move(), FiveInRowMove::Mine(0, 4));
}

#[test]
fn it_suggests_correct_move_2() {
    let moves = Vec::from([
        FiveInRowMove::Mine(0, 0),
        FiveInRowMove::Rivals(0, 1),
        FiveInRowMove::Mine(1, 0),
        FiveInRowMove::Rivals(0, 2),
        FiveInRowMove::Mine(2, 0),
        FiveInRowMove::Rivals(0, 3),
    ]);
    let game = FiveInRow::from_moves(moves);
    let mut game_play = GamePlay::from_game(game);
    game_play.compute_suggestions(true, Vec::new(), 0).unwrap();
    let suggested = game_play.suggest_move(true).unwrap();
    assert_eq!(*suggested.get_move(), FiveInRowMove::Mine(-1, 0));
}

#[test]
fn it_suggests_correct_move_3() {
    let moves = Vec::from([
        FiveInRowMove::Mine(0, 0),
        FiveInRowMove::Rivals(-1, -1),
        FiveInRowMove::Mine(-1, 1),
        FiveInRowMove::Rivals(1, -1),
        FiveInRowMove::Mine(0, -1),
        FiveInRowMove::Rivals(0, -2),
        FiveInRowMove::Mine(-1, -2),
        FiveInRowMove::Rivals(-1, -3),
        FiveInRowMove::Mine(-2, 0),
        FiveInRowMove::Rivals(2, 0),
    ]);
    let game = FiveInRow::from_moves(moves);
    let mut game_play = GamePlay::from_game(game);
    game_play.compute_suggestions(true, Vec::new(), 1).unwrap();
    let suggested = game_play.suggest_move(true).unwrap();
    assert_eq!(*suggested.get_move(), FiveInRowMove::Mine(-2, -4));
}

#[test]
fn it_suggests_correct_move_4() {
    let moves = Vec::from([
        FiveInRowMove::Rivals(0, 0),
        FiveInRowMove::Mine(-1, -1),
        FiveInRowMove::Rivals(-1, 0),
        FiveInRowMove::Mine(-2, 0),
        FiveInRowMove::Rivals(-3, 1),
        FiveInRowMove::Mine(-2, -1),
        FiveInRowMove::Rivals(-3, -1),
        FiveInRowMove::Mine(-2, 1),
        FiveInRowMove::Rivals(-2, -2),
        FiveInRowMove::Mine(-2, 2),
        FiveInRowMove::Rivals(-2, 3),
        FiveInRowMove::Mine(-1, 2),
        FiveInRowMove::Rivals(-3, 0),
        FiveInRowMove::Mine(-3, 2),
        FiveInRowMove::Rivals(0, 2),
        FiveInRowMove::Mine(-4, 2),
        FiveInRowMove::Rivals(-5, 2),
        FiveInRowMove::Mine(-3, -3),
        FiveInRowMove::Rivals(-4, 0),
        FiveInRowMove::Mine(-1, -3),
        FiveInRowMove::Rivals(-5, 1),
        FiveInRowMove::Mine(-6, 2),
        FiveInRowMove::Rivals(-5, 3),
        FiveInRowMove::Mine(-5, 4),
        FiveInRowMove::Rivals(-6, 5),
        FiveInRowMove::Mine(-5, 0),
        FiveInRowMove::Rivals(0, 1),
    ]);
    let game = FiveInRow::from_moves(moves);
    let mut game_play = GamePlay::from_game(game);
    game_play.compute_suggestions(true, Vec::new(), 2).unwrap();
    let suggested = game_play.suggest_move(true).unwrap();
    let suggested_move = *suggested.get_move();
    assert!(
        suggested_move == FiveInRowMove::Mine(0, -1) || suggested_move == FiveInRowMove::Mine(0, 3),
        "Expected (0, -1) or (0, 3), got {:?}",
        suggested_move
    );
}

#[test]
fn it_suggests_correct_move_5() {
    let moves = Vec::from([
        FiveInRowMove::Mine(0, 0),
        FiveInRowMove::Rivals(0, 1),
        FiveInRowMove::Mine(-1, -1),
        FiveInRowMove::Rivals(0, 2),
        FiveInRowMove::Mine(0, 3),
        FiveInRowMove::Rivals(-1, 2),
        FiveInRowMove::Mine(-1, 3),
        FiveInRowMove::Rivals(1, 2),
        FiveInRowMove::Mine(2, 2),
        FiveInRowMove::Rivals(1, 1),
        FiveInRowMove::Mine(1, 0),
        FiveInRowMove::Rivals(-2, 2),
        FiveInRowMove::Mine(-3, 2),
        FiveInRowMove::Rivals(-2, 1),
    ]);
    let game = FiveInRow::from_moves(moves);
    let mut game_play = GamePlay::from_game(game);
    game_play.compute_suggestions(true, Vec::new(), 3).unwrap();
    let suggested = game_play.suggest_move(true).unwrap();
    assert_eq!(*suggested.get_move(), FiveInRowMove::Mine(-1, 1));
}
