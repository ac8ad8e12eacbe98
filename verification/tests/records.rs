use std::collections::HashMap;

use hnefatafl_copenhagen::board::{board_11x11, Board, BoardSize};
use hnefatafl_copenhagen::opentafl::{default_true, OpenTaflMoves, Variant};
use hnefatafl_copenhagen::play::{Captures, Plae, Play, PlayCommandError, Plays, Vertex, VertexError};
use hnefatafl_copenhagen::role::Role;
use hnefatafl_copenhagen::zobrist::ZobristHasher;

fn v(x: usize, y: usize) -> Vertex {
    Vertex { size: BoardSize::_11, x, y }
}

fn board(rows: [&str; 11]) -> Board {
    Board::try_from_rows(&rows).expect("a valid diagram")
}

#[test]
fn opentafl_move_lists() {
    let moves = OpenTaflMoves::from_str("a1-a2 b2-b3xc3xc3xd4 resigns c1-c2").expect("readable");
    assert_eq!(moves.0.len(), 3);
    assert_eq!(
        moves.0[0].0,
        Plae::Play(Play { role: Role::Attacker, from: v(0, 10), to: v(0, 9) })
    );
    assert!(moves.0[0].1 .0.is_empty());
    assert_eq!(
        moves.0[1].0,
        Plae::Play(Play { role: Role::Defender, from: v(1, 9), to: v(1, 8) })
    );
    // A square captured twice is listed once.
    assert_eq!(moves.0[1].1 .0, vec![v(2, 8), v(3, 7)]);
    // The word that is no move still takes a turn.
    assert_eq!(
        moves.0[2].0,
        Plae::Play(Play { role: Role::Defender, from: v(2, 10), to: v(2, 9) })
    );

    // A word whose squares cannot be read is passed over.
    let moves = OpenTaflMoves::from_str("  a1-zz\tq-a2\n").expect("readable");
    assert!(moves.0.is_empty());

    // A captured square that cannot be read is an error.
    assert_eq!(OpenTaflMoves::from_str("a1-a2xz5").err(), Some(VertexError::IllegalLetter));
    assert_eq!(OpenTaflMoves::from_str("a1-a2x").err(), Some(VertexError::InvalidCoordinate));

    assert_eq!(Variant::default(), Variant::Copenhagen);
    assert!(default_true());
}

#[test]
fn zobrist_hashes() {
    let base = ZobristHasher::default();
    assert!(base.table.is_empty());
    assert_eq!(base.finish(), 0);

    let mut hasher = base.build_hasher().expect("the random source works");
    assert_eq!(hasher.table.len(), 121);
    assert_eq!(hasher.finish(), 0);

    let mut bytes = vec![2u8; 121];
    bytes[0] = 0;
    bytes[5] = 3;
    bytes[60] = 1;
    hasher.write(&bytes);
    let both = hasher.table[0][0] ^ hasher.table[5][2] ^ hasher.table[60][1];
    assert_eq!(hasher.finish(), both);

    // Taking the king off changes the hash by the king's key on its square.
    bytes[5] = 2;
    hasher.write(&bytes);
    assert_eq!(hasher.finish(), both ^ hasher.table[5][2]);

    // An empty board hashes to zero.
    hasher.write(&vec![2u8; 121]);
    assert_eq!(hasher.finish(), 0);

    let thirteen = ZobristHasher { table: Vec::new(), hash: 7, size: BoardSize::_13 };
    let built = thirteen.build_hasher().expect("the random source works");
    assert_eq!(built.table.len(), 169);
    assert_eq!(built.size, BoardSize::_13);
    assert_eq!(built.finish(), 0);
}

fn corners_sealed() -> Board {
    board([
        ".XX.....XX.",
        "X.........X",
        "X.........X",
        "...........",
        "...........",
        ".....K.....",
        "...........",
        "...........",
        "X.........X",
        "X.........X",
        ".XX.....XX.",
    ])
}

#[test]
fn sealed_corners() {
    let b = corners_sealed();
    let expected = vec![
        v(0, 0),
        v(1, 0),
        v(2, 0),
        v(8, 0),
        v(9, 0),
        v(10, 0),
        v(0, 1),
        v(10, 1),
        v(0, 2),
        v(10, 2),
        v(0, 8),
        v(10, 8),
        v(0, 9),
        v(10, 9),
        v(0, 10),
        v(1, 10),
        v(2, 10),
        v(8, 10),
        v(9, 10),
        v(10, 10),
    ];
    assert_eq!(b.closed_off_exits(), Some(expected));
    // No defender is left and the attackers hold every corner.
    assert!(b.can_not_esacpe());

    let start = board_11x11();
    assert_eq!(start.closed_off_exits(), None);
    assert!(!start.can_not_esacpe());
    assert_eq!(start.exit_squares(), vec![v(0, 0), v(10, 0), v(0, 10), v(10, 10)]);
}

#[test]
fn king_trapped_on_an_edge() {
    let b = board([
        "...........",
        "...........",
        "...........",
        "X..........",
        "X..........",
        "K..........",
        "X..........",
        "X..........",
        "...........",
        "...........",
        "...........",
    ]);
    assert!(b.king_trapped(1, 5));
    assert!(!b.king_trapped(1, 6));
    assert!(!b.king_trapped(5, 5));

    let b = board([
        "...........",
        "...........",
        "...........",
        "X..........",
        "XXX........",
        "KXX........",
        "X..........",
        "X..........",
        "...........",
        "...........",
        "...........",
    ]);
    assert!(b.king_trapped(5, 10));
    assert!(!b.king_trapped(5, 7));

    // A king in the middle of the board is not trapped against an edge.
    assert!(!board_11x11().king_trapped(0, 0));
}

#[test]
fn rook_neighbours() {
    let b = board([
        "...........",
        "...........",
        ".....X.....",
        "...........",
        "...........",
        ".....K.....",
        "...........",
        "...........",
        "...........",
        "...........",
        "...........",
    ]);
    let mut visited = HashMap::new();
    visited.insert(v(4, 5).index(), (0u8, None));
    let neighbours = b.get_neighbors(&vec![v(5, 5)], &visited);
    assert_eq!(
        neighbours,
        vec![
            v(3, 5),
            v(2, 5),
            v(1, 5),
            v(0, 5),
            v(6, 5),
            v(7, 5),
            v(8, 5),
            v(9, 5),
            v(10, 5),
            v(5, 4),
            v(5, 3),
            v(5, 6),
            v(5, 7),
            v(5, 8),
            v(5, 9),
            v(5, 10),
        ]
    );
}

#[test]
fn turns_as_text() {
    let play = Play { role: Role::Attacker, from: v(0, 10), to: v(0, 9) };
    assert_eq!(play.to_string(), "Attacker from a1 to a2");
    assert_eq!(Plae::Play(play).to_string(), "play attacker a1 a2\n");
    assert_eq!(Plae::DefenderResigns.to_string(), "play defender resigns _\n");
    assert_eq!(Captures(vec![v(0, 10), v(1, 9)]).to_string(), "a1 b2 ");
    assert_eq!(Captures::default().to_string(), "");
    let plays = Plays::PlayRecords(vec![Some(Plae::Play(play)), None, Some(Plae::AttackerResigns)]);
    assert_eq!(
        plays.to_string(),
        "\n    play attacker a1 a2\n    play attacker resigns _\n"
    );
    assert_eq!(Plays::PlayRecords(Vec::new()).to_string(), "");
    // A row number too large for the machine is no number.
    assert_eq!(
        Vertex::from_str("a99999999999999999999999"),
        Err(VertexError::NotANumber)
    );
}

#[test]
fn board_diagrams() {
    let b = board_11x11();
    let text = b.to_debug_string();
    assert!(text.starts_with("\n\"...XXXXX...\"\n\".....X.....\"\n"));
    assert_eq!(text.lines().count(), 12);
    let picture = b.display_with("#");
    assert!(picture.contains("11│ # . . ♟ ♟ ♟ ♟ ♟ . . # │11\n"));
    assert!(picture.contains(" 6│ ♟ ♟ . ♙ ♙ ♔ ♙ ♙ . ♟ ♟ │ 6\n"));
    assert!(picture.starts_with("\n    A B C D E F G H I J K\n  ┌"));
    let mut ascii = board_11x11();
    ascii.display_ascii = true;
    let plain = ascii.to_string();
    assert!(plain.contains(" 6│ A A . D D K D D . A A │ 6\n"));
}

#[test]
fn play_commands() {
    assert_eq!(
        Plae::try_from_args(&["play", "Attacker", "a1", "a2"]).ok(),
        Some(Plae::Play(Play { role: Role::Attacker, from: v(0, 10), to: v(0, 9) }))
    );
    assert_eq!(Plae::try_from_args(&["play", "d", "resigns"]).ok(), Some(Plae::DefenderResigns));
    assert_eq!(Plae::try_from_args(&["play", "a", "resigns"]).ok(), Some(Plae::AttackerResigns));
    assert!(matches!(Plae::try_from_args(&["play", "a"]), Err(PlayCommandError::Expected)));
    assert!(matches!(
        Plae::try_from_args(&["play", "a", "a1"]),
        Err(PlayCommandError::Expected)
    ));
    match Plae::try_from_args(&["play", "King", "a1", "a2"]) {
        Err(PlayCommandError::Role(e)) => assert_eq!(e.message(), "Error trying to convert 'king' to a Role!"),
        other => panic!("expected a role error, got {other:?}"),
    }
    assert!(matches!(
        Plae::try_from_args(&["play", "attacker", "z1", "a2"]),
        Err(PlayCommandError::Vertex(VertexError::IllegalLetter))
    ));
    assert!(matches!(
        Plae::try_from_args(&["play", "attacker", "a1", "a99"]),
        Err(PlayCommandError::Vertex(VertexError::InvalidCoordinate))
    ));

    assert_eq!(BoardSize::from_str("11").ok(), Some(BoardSize::_11));
    assert_eq!(BoardSize::from_str("13").ok(), Some(BoardSize::_13));
    let error = BoardSize::from_str("12").err().expect("12 is no size");
    assert_eq!(error.message(), "expected 11 or 13, got 12");
}
