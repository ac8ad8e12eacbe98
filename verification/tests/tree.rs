use hnefatafl_copenhagen::board::{Board, BoardSize};
use hnefatafl_copenhagen::game::PreviousBoards;
use hnefatafl_copenhagen::play::{Plae, Play, Plays, Vertex};
use hnefatafl_copenhagen::role::Role;
use hnefatafl_copenhagen::status::Status;
use hnefatafl_copenhagen::tree::Tree;

fn v(x: usize, y: usize) -> Vertex {
    Vertex { size: BoardSize::_11, x, y }
}

fn after(board: &Board, role: Role, from: Vertex, to: Vertex) -> Board {
    let mut next = board.copy();
    let mut history = PreviousBoards(vec![board.copy()]);
    next.play(&Plae::Play(Play { role, from, to }), &Status::Ongoing, &role, &mut history)
        .expect("the move is allowed");
    next
}

#[test]
fn walking_a_game_tree() {
    let mut tree = Tree::new(BoardSize::_11);
    assert!(!tree.has_children());
    let start = tree.here_board();
    assert_eq!(tree.here().turn, Role::Attacker);

    let first = after(&start, Role::Attacker, v(3, 0), v(3, 2));
    tree.insert(&first);
    assert_eq!(tree.here().turn, Role::Defender);
    assert!(tree.here_board().same_spaces(&first));
    assert!(!tree.has_children());

    // Going back after an insertion returns to where the position was inserted.
    tree.backward();
    assert!(tree.has_children());
    assert!(tree.here_board().same_spaces(&start));

    // A second line from the start.
    let second = after(&start, Role::Attacker, v(7, 0), v(7, 2));
    tree.insert(&second);
    tree.backward();

    // The chosen child goes round.
    assert_eq!(tree.next_child, 0);
    tree.next_child();
    assert_eq!(tree.next_child, 1);
    tree.next_child();
    assert_eq!(tree.next_child, 0);
    tree.next_child();
    tree.forward();
    assert!(tree.here_board().same_spaces(&second));
    assert_eq!(tree.next_child, 0);

    // Deeper in the first line.
    tree.backward_all();
    tree.forward();
    assert!(tree.here_board().same_spaces(&first));
    let reply = after(&first, Role::Defender, v(5, 3), v(2, 3));
    tree.insert(&reply);
    assert_eq!(tree.here().turn, Role::Attacker);

    let (plays, previous) = tree.previous_boards();
    match plays {
        Plays::PlayRecords(plays) => {
            assert_eq!(
                plays,
                vec![
                    Some(Plae::Play(Play { role: Role::Attacker, from: v(3, 0), to: v(3, 2) })),
                    Some(Plae::Play(Play { role: Role::Defender, from: v(5, 3), to: v(2, 3) })),
                ]
            );
        }
        Plays::PlayRecordsTimed(_) => panic!("the tree records untimed plays"),
    }
    assert_eq!(previous.0.len(), 4);
    assert!(previous.0[0].same_spaces(&start));
    assert!(previous.0[1].same_spaces(&reply));
    assert!(previous.0[2].same_spaces(&first));
    assert!(previous.0[3].same_spaces(&start));

    // Back to the root, then all the way down the first children.
    tree.backward_all();
    assert_eq!(tree.forward_all(), 2);
    assert!(tree.here_board().same_spaces(&reply));
    assert!(!tree.has_children());
    tree.backward_all();
    tree.backward();
    assert!(tree.here_board().same_spaces(&start));
}
