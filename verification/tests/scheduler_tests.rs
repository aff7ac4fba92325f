use xo_rs::board::Board;
use xo_rs::marker::{GameError, Marker, State};
use xo_rs::scheduler::{first_side, Phase, Scheduler, Tally};
use xo_rs::strategy::Strategy;

const ZERO: Tally = Tally { x_wins: 0, o_wins: 0, draws: 0 };

fn same_cells(a: &Board, b: &Board) -> bool {
    let n = a.nrows();
    if b.nrows() != n {
        return false;
    }
    for r in 0..n {
        for c in 0..n {
            if a.get(r, c) != b.get(r, c) {
                return false;
            }
        }
    }
    true
}

#[test]
fn tally_counts_a_round_for_its_outcome() {
    assert_eq!(ZERO.record(State::WinX), Tally { x_wins: 1, o_wins: 0, draws: 0 });
    assert_eq!(ZERO.record(State::WinO), Tally { x_wins: 0, o_wins: 1, draws: 0 });
    assert_eq!(ZERO.record(State::Draw), Tally { x_wins: 0, o_wins: 0, draws: 1 });
    assert_eq!(ZERO.record(State::Incomplete), ZERO);
    let t = Tally { x_wins: 3, o_wins: 5, draws: 8 };
    assert_eq!(t.record(State::Draw).record(State::WinO), Tally { x_wins: 3, o_wins: 6, draws: 9 });
}

#[test]
fn tally_stays_once_a_counter_is_full() {
    let t = Tally { x_wins: u64::MAX, o_wins: u64::MAX - 1, draws: 0 };
    assert_eq!(t.record(State::WinX), t);
    assert_eq!(t.record(State::WinO), Tally { x_wins: u64::MAX, o_wins: u64::MAX, draws: 0 });
}

#[test]
fn with_first_starts_with_the_side_drawn() {
    let s = Scheduler::with_first(Board::new(3), Strategy::Human, Strategy::Search, 0);
    assert_eq!(s.phase(), Phase::AwaitingMove(Marker::X));
    let s = Scheduler::with_first(Board::new(3), Strategy::Human, Strategy::Search, 1);
    assert_eq!(s.phase(), Phase::AwaitingMove(Marker::O));
    assert_eq!(s.tally(), ZERO);
    assert_eq!(s.strategy_of(Marker::X), Strategy::Human);
    assert_eq!(s.strategy_of(Marker::O), Strategy::Search);
    assert!(same_cells(s.board(), &Board::new(3)));
}

#[test]
fn needs_input_while_a_person_is_to_move() {
    let mut s = Scheduler::with_first(Board::new(3), Strategy::Human, Strategy::Random, 0);
    assert!(s.needs_input());
    s.apply(0, 0).unwrap();
    assert_eq!(s.phase(), Phase::AwaitingMove(Marker::O));
    assert!(!s.needs_input());
}

#[test]
fn apply_moves_for_the_side_awaited_and_hands_over() {
    let mut s = Scheduler::with_first(Board::new(3), Strategy::Human, Strategy::Human, 1);
    let shown = s.apply(1, 1).unwrap();
    assert_eq!(shown.get(1, 1), Ok(Marker::O));
    assert_eq!(s.board().get(1, 1), Ok(Marker::O));
    assert_eq!(s.phase(), Phase::AwaitingMove(Marker::X));
    let shown = s.apply(0, 0).unwrap();
    assert_eq!(shown.get(0, 0), Ok(Marker::X));
    assert_eq!(s.phase(), Phase::AwaitingMove(Marker::O));
    assert_eq!(s.tally(), ZERO);
}

#[test]
fn apply_refuses_a_bad_cell_and_changes_nothing() {
    let mut s = Scheduler::with_first(Board::new(3), Strategy::Human, Strategy::Human, 0);
    s.apply(1, 1).unwrap();
    assert_eq!(s.apply(1, 1).err(), Some(GameError::CellOccupied));
    assert_eq!(s.apply(3, 1).err(), Some(GameError::OutOfBounds));
    assert_eq!(s.phase(), Phase::AwaitingMove(Marker::O));
    assert_eq!(s.board().get_blanks().len(), 8);
}

#[test]
fn a_win_ends_the_round_counts_it_and_clears_the_board() {
    let mut s = Scheduler::with_first(Board::new(3), Strategy::Human, Strategy::Human, 0);
    for (r, c) in [(0, 0), (1, 0), (0, 1), (1, 1)] {
        s.apply(r, c).unwrap();
        assert!(matches!(s.phase(), Phase::AwaitingMove(_)));
    }
    let shown = s.apply(0, 2).unwrap();
    assert_eq!(shown.get_state(), State::WinX);
    assert_eq!(shown.get(0, 2), Ok(Marker::X));
    assert_eq!(s.phase(), Phase::Terminal(State::WinX));
    assert_eq!(s.tally(), Tally { x_wins: 1, o_wins: 0, draws: 0 });
    assert!(same_cells(s.board(), &Board::new(3)));
    assert!(!s.needs_input());
}

#[test]
fn a_full_board_without_a_line_ends_the_round_in_a_draw() {
    let mut s = Scheduler::with_first(Board::new(3), Strategy::Human, Strategy::Human, 1);
    let moves = [(0, 1), (0, 0), (1, 1), (0, 2), (1, 2), (1, 0), (2, 0), (2, 1), (2, 2)];
    for (i, (r, c)) in moves.iter().enumerate() {
        assert!(matches!(s.phase(), Phase::AwaitingMove(_)));
        let shown = s.apply(*r, *c).unwrap();
        if i < 8 {
            assert_eq!(shown.get_state(), State::Incomplete);
        } else {
            assert_eq!(shown.get_state(), State::Draw);
        }
    }
    assert_eq!(s.phase(), Phase::Terminal(State::Draw));
    assert_eq!(s.tally(), Tally { x_wins: 0, o_wins: 0, draws: 1 });
}

#[test]
fn after_the_round_there_is_no_move() {
    let mut rng = rand::thread_rng();
    let mut s = Scheduler::with_first(Board::new(3), Strategy::Human, Strategy::Human, 0);
    for (r, c) in [(0, 0), (1, 0), (0, 1), (1, 1), (0, 2)] {
        s.apply(r, c).unwrap();
    }
    assert_eq!(s.apply(2, 2).err(), Some(GameError::NoLegalMove));
    assert_eq!(s.turn("5", &mut rng).err(), Some(GameError::NoLegalMove));
    assert_eq!(s.phase(), Phase::Terminal(State::WinX));
    assert_eq!(s.tally(), Tally { x_wins: 1, o_wins: 0, draws: 0 });
}

#[test]
fn start_round_clears_the_board_and_keeps_the_count() {
    let mut s = Scheduler::with_first(Board::new(3), Strategy::Human, Strategy::Human, 1);
    for (r, c) in [(0, 0), (1, 0), (0, 1), (1, 1), (0, 2)] {
        s.apply(r, c).unwrap();
    }
    assert_eq!(s.phase(), Phase::Terminal(State::WinO));
    s.start_round(0);
    assert_eq!(s.phase(), Phase::AwaitingMove(Marker::X));
    assert_eq!(s.tally(), Tally { x_wins: 0, o_wins: 1, draws: 0 });
    assert!(same_cells(s.board(), &Board::new(3)));
    s.apply(2, 2).unwrap();
    s.start_round(7);
    assert_eq!(s.phase(), Phase::AwaitingMove(Marker::O));
    assert!(same_cells(s.board(), &Board::new(3)));
}

#[test]
fn begin_round_awaits_one_of_the_sides() {
    let mut rng = rand::thread_rng();
    let mut s = Scheduler::with_first(Board::new(3), Strategy::Random, Strategy::Random, 0);
    s.apply(0, 0).unwrap();
    s.begin_round(&mut rng);
    assert!(matches!(s.phase(), Phase::AwaitingMove(Marker::X) | Phase::AwaitingMove(Marker::O)));
    assert!(same_cells(s.board(), &Board::new(3)));
}

#[test]
fn the_starting_side_is_drawn_evenly() {
    let mut rng = rand::thread_rng();
    let rounds = 4000;
    let mut x_first = 0;
    for _ in 0..rounds {
        let s = Board::new(3).run_game(Strategy::Random, Strategy::Random, &mut rng);
        match s.phase() {
            Phase::AwaitingMove(Marker::X) => x_first += 1,
            Phase::AwaitingMove(Marker::O) => {}
            other => panic!("no side is awaited: {:?}", other),
        }
    }
    assert!(x_first > rounds * 2 / 5);
    assert!(x_first < rounds * 3 / 5);
}

#[test]
fn turn_of_a_person_goes_by_the_line() {
    let mut rng = rand::thread_rng();
    let mut s = Scheduler::with_first(Board::new(3), Strategy::Human, Strategy::Human, 0);
    let (p, shown) = s.turn("5\n", &mut rng).unwrap();
    assert_eq!(p, (1, 1));
    assert_eq!(shown.get(1, 1), Ok(Marker::X));
    assert_eq!(s.phase(), Phase::AwaitingMove(Marker::O));
    assert_eq!(s.turn("5", &mut rng).err(), Some(GameError::CellOccupied));
    assert_eq!(s.turn("x", &mut rng).err(), Some(GameError::InvalidInput));
    assert_eq!(s.turn("12", &mut rng).err(), Some(GameError::InvalidInput));
    assert_eq!(s.phase(), Phase::AwaitingMove(Marker::O));
    let (p, _) = s.turn("1", &mut rng).unwrap();
    assert_eq!(p, (2, 0));
    assert_eq!(s.phase(), Phase::AwaitingMove(Marker::X));
}

#[test]
fn turn_of_the_machine_needs_no_line() {
    let mut rng = rand::thread_rng();
    for strategy in [Strategy::Random, Strategy::Heuristic, Strategy::Search] {
        let mut s = Scheduler::with_first(Board::new(3), strategy, strategy, 0);
        let (p, shown) = s.turn("", &mut rng).unwrap();
        assert_eq!(shown.get(p.0, p.1), Ok(Marker::X));
        assert_eq!(s.board().get(p.0, p.1), Ok(Marker::X));
        assert_eq!(s.phase(), Phase::AwaitingMove(Marker::O));
    }
}

#[test]
fn search_against_search_draws_every_round() {
    let mut rng = rand::thread_rng();
    let mut s = Board::new(3).run_game(Strategy::Search, Strategy::Search, &mut rng);
    for round in 1..=3u64 {
        let mut turns = 0;
        while let Phase::AwaitingMove(_) = s.phase() {
            s.turn("", &mut rng).unwrap();
            turns += 1;
        }
        assert_eq!(turns, 9);
        assert_eq!(s.phase(), Phase::Terminal(State::Draw));
        assert_eq!(s.tally(), Tally { x_wins: 0, o_wins: 0, draws: round });
        s.begin_round(&mut rng);
    }
}

#[test]
fn search_never_loses_to_chance() {
    let mut rng = rand::thread_rng();
    let mut s = Board::new(3).run_game(Strategy::Search, Strategy::Random, &mut rng);
    for _ in 0..10 {
        while let Phase::AwaitingMove(_) = s.phase() {
            s.turn("", &mut rng).unwrap();
        }
        assert!(matches!(s.phase(), Phase::Terminal(State::WinX) | Phase::Terminal(State::Draw)));
        s.begin_round(&mut rng);
    }
    assert_eq!(s.tally().o_wins, 0);
    assert_eq!(s.tally().x_wins + s.tally().draws, 10);
}

#[test]
fn heuristic_against_heuristic_ends_every_round() {
    let mut rng = rand::thread_rng();
    let mut s = Board::new(3).run_game(Strategy::Heuristic, Strategy::Heuristic, &mut rng);
    for _ in 0..20 {
        let mut turns = 0;
        while let Phase::AwaitingMove(_) = s.phase() {
            s.turn("", &mut rng).unwrap();
            turns += 1;
        }
        assert!(5 <= turns && turns <= 9);
        s.begin_round(&mut rng);
    }
    let t = s.tally();
    assert_eq!(t.x_wins + t.o_wins + t.draws, 20);
}

#[test]
fn centre_then_chance_goes_on_until_a_line_or_a_full_board() {
    let mut rng = rand::thread_rng();
    for _ in 0..50 {
        let mut b = Board::new(3);
        assert_eq!(b.user_add(Marker::X, "5"), Ok((1, 1)));
        assert_eq!(b.get(1, 1), Ok(Marker::X));
        assert_eq!(b.get_state(), State::Incomplete);
        let mut side = Marker::O;
        loop {
            b.rand_add(side, &mut rng).unwrap();
            let line = b.check_win(Marker::X) || b.check_win(Marker::O);
            let full = b.get_blanks().is_empty();
            let state = b.get_state();
            if !line && !full {
                assert_eq!(state, State::Incomplete);
            } else if !line {
                assert_eq!(state, State::Draw);
                break;
            } else {
                assert_eq!(state, side.win_con());
                break;
            }
            side = side.opposite();
        }
    }
}

#[test]
fn run_game_starts_on_the_board_as_it_stands() {
    let mut rng = rand::thread_rng();
    let mut b = Board::new(3);
    b.place(1, 1, Marker::X).unwrap();
    let s = b.clone().run_game(Strategy::Human, Strategy::Random, &mut rng);
    assert!(matches!(s.phase(), Phase::AwaitingMove(Marker::X) | Phase::AwaitingMove(Marker::O)));
    assert!(same_cells(s.board(), &b));
    assert_eq!(s.tally(), ZERO);
    assert_eq!(s.strategy_of(Marker::X), Strategy::Human);
    assert_eq!(s.strategy_of(Marker::O), Strategy::Random);
}

#[test]
fn a_session_on_a_decided_board_counts_the_round_at_once() {
    let mut b = Board::new(3);
    for c in 0..3 {
        b.place(0, c, Marker::O).unwrap();
    }
    let s = Scheduler::with_first(b, Strategy::Search, Strategy::Search, 0);
    assert_eq!(s.phase(), Phase::Terminal(State::WinO));
    assert_eq!(s.tally(), Tally { x_wins: 0, o_wins: 1, draws: 0 });
    assert!(same_cells(s.board(), &Board::new(3)));
}

#[test]
fn a_session_on_a_larger_board_wants_a_longer_line() {
    let mut s = Scheduler::with_first(Board::new(4), Strategy::Human, Strategy::Human, 0);
    for (r, c) in [(0, 0), (1, 0), (0, 1), (1, 1), (0, 2), (1, 2)] {
        s.apply(r, c).unwrap();
    }
    assert_eq!(s.phase(), Phase::AwaitingMove(Marker::X));
    s.apply(0, 3).unwrap();
    assert_eq!(s.phase(), Phase::Terminal(State::WinX));
    assert!(same_cells(s.board(), &Board::new(4)));
}

#[test]
fn first_side_is_x_on_zero_and_o_otherwise() {
    assert_eq!(first_side(0), Marker::X);
    assert_eq!(first_side(1), Marker::O);
    assert_eq!(first_side(2), Marker::O);
    assert_eq!(first_side(usize::MAX), Marker::O);
}
