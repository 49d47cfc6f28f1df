use balancebeam::hangman::{Game, HIDDEN, NUM_INCORRECT_GUESSES};

fn shown(game: &Game) -> String {
    game.word_so_far().iter().collect()
}

#[test]
fn new_game_hides_every_letter() {
    let game = Game::new("rust".chars().collect());
    assert_eq!(shown(&game), "----");
    assert_eq!(game.guesses_left(), 5);
    assert!(game.letters_guessed().is_empty());
    assert!(!game.is_won());
    assert!(!game.is_lost());
    assert_eq!(HIDDEN, '-');
    assert_eq!(NUM_INCORRECT_GUESSES, 5);
}

#[test]
fn a_guess_uncovers_one_place_at_a_time() {
    let mut game = Game::new("letter".chars().collect());
    assert!(game.guess('t'));
    assert_eq!(shown(&game), "--t---");
    assert!(game.guess('t'));
    assert_eq!(shown(&game), "--tt--");
    assert!(!game.guess('t'));
    assert_eq!(shown(&game), "--tt--");
    assert_eq!(game.guesses_left(), 4);
    assert_eq!(game.letters_guessed(), &vec!['t', 't', 't']);
}

#[test]
fn game_is_won_when_nothing_is_hidden() {
    let mut game = Game::new("aba".chars().collect());
    assert!(game.guess('a'));
    assert!(game.guess('b'));
    assert!(!game.is_won());
    assert!(game.guess('a'));
    assert!(game.is_won());
    assert!(!game.is_lost());
    assert_eq!(shown(&game), "aba");
    assert_eq!(game.guesses_left(), 5);
}

#[test]
fn game_is_lost_at_the_fifth_miss() {
    let mut game = Game::new("rust".chars().collect());
    for (n, letter) in ['a', 'b', 'c', 'd'].iter().enumerate() {
        assert!(!game.guess(*letter));
        assert!(!game.is_lost());
        assert_eq!(game.guesses_left(), 4 - n as u32);
    }
    assert!(game.guess('r'));
    assert!(!game.guess('e'));
    assert!(game.is_lost());
    assert!(!game.is_won());
    assert_eq!(game.guesses_left(), 0);
    assert_eq!(shown(&game), "r---");
    assert!(!game.guess('z'));
    assert_eq!(game.guesses_left(), 0);
}

#[test]
fn empty_word_is_won_at_once() {
    let game = Game::new(Vec::new());
    assert!(game.is_won());
    assert_eq!(shown(&game), "");
}
