use hnefatafl_copenhagen::status::Status;
use hnefatafl_copenhagen::tournament::{Group, Record, Tournament};

fn blank() -> Record {
    Record { wins: 0, losses: 0, draws: 0, half_moves: 0 }
}

fn tournament() -> Tournament {
    Tournament {
        players: vec!["david".to_string(), "eve".to_string()],
        groups: vec![vec![Group {
            id: 0,
            total_games: 1,
            records: vec![("david".to_string(), blank()), ("eve".to_string(), blank())],
        }]],
        tournament_games: vec![(7, (0, 0))],
    }
}

#[test]
fn a_win_ends_the_round() {
    let mut t = tournament();
    assert!(t.is_tournament_game(7));
    assert!(!t.is_tournament_game(8));
    assert!(!t.game_over(8, "david", "eve", Status::AttackerWins, 5));
    assert!(t.game_over(7, "david", "eve", Status::AttackerWins, 5));
    let records = &t.groups[0][0].records;
    assert_eq!(records[0].1, Record { wins: 1, losses: 0, draws: 0, half_moves: 4 });
    assert_eq!(records[1].1, Record { wins: 0, losses: 1, draws: 0, half_moves: 0 });
    assert!(t.tournament_games.is_empty());
    assert_eq!(t.players, vec!["david".to_string()]);
    assert!(!t.is_tournament_game(7));
}

#[test]
fn a_draw_keeps_both() {
    let mut t = tournament();
    assert!(!t.game_over(7, "david", "eve", Status::Draw, 6));
    let records = &t.groups[0][0].records;
    assert_eq!(records[0].1, Record { wins: 0, losses: 0, draws: 1, half_moves: 2 });
    assert_eq!(records[1].1, Record { wins: 0, losses: 0, draws: 1, half_moves: 2 });
    assert_eq!(t.players.len(), 2);
    assert_eq!(records[0].1.score(), 1);
    assert_eq!(records[0].1.games_count(), 1);
    let mut r = records[0].1;
    r.reset();
    assert_eq!(r, Record { wins: 0, losses: 0, draws: 0, half_moves: 2 });
}

#[test]
fn fewer_moves_break_a_tie() {
    let mut t = tournament();
    t.groups[0][0].total_games = 2;
    t.groups[0][0].records[0].1 = Record { wins: 1, losses: 0, draws: 0, half_moves: 10 };
    t.groups[0][0].records[1].1 = Record { wins: 0, losses: 1, draws: 0, half_moves: 0 };
    assert!(t.game_over(7, "eve", "david", Status::AttackerWins, 3));
    assert_eq!(t.groups[0][0].records[1].1.half_moves, 2);
    assert_eq!(t.players, vec!["eve".to_string()]);
}
