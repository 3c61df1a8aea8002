use game_play::direction::Direction;
use game_play::mv::{sort_moves, FiveInRowMove, GameMove};
use game_play::score::Score;
use game_play::suggestion::Suggestion;

#[test]
fn it_creates_iterator() {
    let mv = FiveInRowMove::Mine(0, 0);
    let i = Direction::create_list_from_move(&mv);
    assert_eq!(i.len(), 4);
}

#[test]
fn it_check_row_direction() {
    assert_eq!(Direction::Row(3).is_in_direction(1, 2), false);
    assert_eq!(Direction::Row(3).is_in_direction(2, 3), true);
    assert_eq!(Direction::Row(3).is_in_direction(3, 4), false);
}

#[test]
fn it_check_col_direction() {
    assert_eq!(Direction::Column(3).is_in_direction(1, 2), false);
    assert_eq!(Direction::Column(3).is_in_direction(2, 3), false);
    assert_eq!(Direction::Column(3).is_in_direction(3, 4), true);
}

#[test]
fn it_check_rising_diagonal_direction() {
    assert_eq!(Direction::Diagonal(1, 3).is_in_direction(0, 2), true);
    assert_eq!(Direction::Diagonal(1, 3).is_in_direction(0, 3), false);
    assert_eq!(Direction::Diagonal(1, 3).is_in_direction(0, 4), false);
    assert_eq!(Direction::Diagonal(1, 3).is_in_direction(0, 5), false);
    assert_eq!(Direction::Diagonal(1, 3).is_in_direction(2, 2), false);
    assert_eq!(Direction::Diagonal(1, 3).is_in_direction(2, 3), false);
    assert_eq!(Direction::Diagonal(1, 3).is_in_direction(2, 4), true);
    assert_eq!(Direction::Diagonal(1, 3).is_in_direction(2, 5), false);
}

#[test]
fn it_check_falling_diagonal_direction() {
    assert_eq!(Direction::CrossDiagonal(1, 3).is_in_direction(0, 2), false);
    assert_eq!(Direction::CrossDiagonal(1, 3).is_in_direction(0, 3), false);
    assert_eq!(Direction::CrossDiagonal(1, 3).is_in_direction(0, 4), true);
    assert_eq!(Direction::CrossDiagonal(1, 3).is_in_direction(0, 5), false);
    assert_eq!(Direction::CrossDiagonal(1, 3).is_in_direction(2, 2), true);
    assert_eq!(Direction::CrossDiagonal(1, 3).is_in_direction(2, 3), false);
    assert_eq!(Direction::CrossDiagonal(1, 3).is_in_direction(2, 4), false);
    assert_eq!(Direction::CrossDiagonal(1, 3).is_in_direction(2, 5), false);
}

#[test]
fn it_checks_type() {
    let mv = FiveInRowMove::Mine(1, 2);
    assert_eq!(mv.is_same_type(Some(&FiveInRowMove::Rivals(3, 4))), false);
    assert_eq!(mv.is_same_type(Some(&FiveInRowMove::Mine(3, 4))), true);
    assert_eq!(mv.is_same_type(None), false);

    assert_eq!(GameMove::is_mine(&mv), true);
    assert_eq!(GameMove::is_mine(&FiveInRowMove::Rivals(1, 2)), false);
}

#[test]
fn it_computes_distance() {
    let mv = FiveInRowMove::Mine(1, 2);
    assert_eq!(mv.get_distance(&FiveInRowMove::Rivals(1, 2)), 0);
    assert_eq!(mv.get_distance(&FiveInRowMove::Rivals(2, 2)), -1);
    assert_eq!(mv.get_distance(&FiveInRowMove::Rivals(-2, -2)), 4);
    assert_eq!(FiveInRowMove::Rivals(-2, -2).get_distance(&mv), -4);
}

#[test]
fn it_sorts_vec_of_moves() {
    let mut v: Vec<FiveInRowMove> = Vec::new();
    v.push(FiveInRowMove::Mine(1, 2));
    v.push(FiveInRowMove::Mine(1, 4));
    v.push(FiveInRowMove::Mine(1, 8));
    v.push(FiveInRowMove::Rivals(1, 3));
    v.push(FiveInRowMove::Rivals(1, 1));
    let v = sort_moves(&v);
    assert_eq!(v.get(0).unwrap().get_y(), 1);
    assert_eq!(v.get(1).unwrap().get_y(), 2);
    assert_eq!(v.get(2).unwrap().get_y(), 3);
    assert_eq!(v.get(3).unwrap().get_y(), 4);
    assert_eq!(v.get(4).unwrap().get_y(), 8);
}

#[test]
fn it_is_comparable() {
    assert!(Score::Win == Score::Win);
    assert!(Score::Win > Score::from_frac(1, 1));
    assert!(Score::Win > Score::Loss);

    assert!(Score::from_frac(1, 1) < Score::Win);
    assert!(Score::from_frac(1, 1) == Score::from_frac(1, 1));
    assert!(Score::from_frac(1, 1) > Score::Loss);

    assert!(Score::from_frac(1, 1) < Score::from_frac(2, 1));
    assert!(Score::from_frac(1, 1) == Score::from_frac(1, 1));
    assert!(Score::from_frac(1, 1) > Score::from_frac(0, 1));

    assert!(Score::from_frac(1009, 1000) == Score::from_frac(1, 1));
    assert!(Score::from_frac(1, 1) == Score::from_frac(1, 1));
    assert!(Score::from_frac(991, 1000) == Score::from_frac(1, 1));

    assert!(Score::Loss < Score::Win);
    assert!(Score::Loss < Score::from_frac(1, 1));
    assert!(Score::Loss == Score::Loss);
}

#[test]
fn it_returns_greater_value() {
    assert_eq!(Score::max(&Score::Win, &Score::Loss), &Score::Win);
    assert_eq!(Score::max(&Score::Win, &Score::from_frac(7, 1)), &Score::Win);
    assert_eq!(
        Score::max(&Score::Loss, &Score::from_frac(7, 1)),
        &Score::from_frac(7, 1)
    );
    assert_eq!(
        Score::max(&Score::from_frac(9, 1), &Score::from_frac(7, 1)),
        &Score::from_frac(9, 1)
    );
}

#[test]
fn suggestion_it_is_comparable() {
    let winning_suggestion = Suggestion::new(FiveInRowMove::Mine(0, 0), Score::Win);
    let progress_suggestion = Suggestion::new(FiveInRowMove::Mine(0, 0), Score::from_frac(1, 1));
    let losing_suggestion = Suggestion::new(FiveInRowMove::Mine(0, 0), Score::Loss);

    assert!(winning_suggestion > progress_suggestion);
    assert!(winning_suggestion > losing_suggestion);
    assert!(progress_suggestion > losing_suggestion);
}

#[test]
fn it_computes_deep_score() {
    let mut suggestion = Suggestion::new(FiveInRowMove::Mine(0, 0), Score::from_frac(1, 1));
    let parents: Vec<FiveInRowMove> = Vec::new();
    suggestion
        .add_suggestions(
            &parents,
            vec![
                Suggestion::new(FiveInRowMove::Rivals(1, 0), Score::from_frac(0, 1)),
                Suggestion::new(FiveInRowMove::Rivals(1, 1), Score::from_frac(-1, 1)),
                Suggestion::new(FiveInRowMove::Rivals(1, -1), Score::from_frac(2, 1)),
            ],
        )
        .unwrap();
    assert_eq!(*suggestion.get_score(), Score::from_frac(1, 1));
    assert_eq!(suggestion.get_deep_score(), Score::from_frac(-1, 1));
}
