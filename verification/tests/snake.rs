use snake::{Direction, Snake, XY};

fn body(snake: &Snake) -> Vec<(u8, u8)> {
    snake.blocks().iter().map(|b| (b.x, b.y)).collect()
}

const GRID: XY = XY { x: 10, y: 10 };

/// A snake of four blocks whose next step up lands on its own tail:
/// head (5,6), then (6,6), (6,5), and the tail at (5,5).
fn coiled() -> Snake {
    let mut snake = Snake::new(XY::new(5, 5)).unwrap();
    snake.grow();
    assert!(!snake.advance_or_collide_in(GRID));
    snake.change_direction(Direction::Down);
    assert!(!snake.advance_or_collide_in(GRID));
    snake.change_direction(Direction::Left);
    assert!(!snake.advance_or_collide_in(GRID));
    snake.change_direction(Direction::Up);
    assert_eq!(body(&snake), vec![(5, 6), (6, 6), (6, 5), (5, 5)]);
    snake
}

#[test]
fn new_snake_trails_to_the_left_and_faces_right() {
    let snake = Snake::new(XY::new(5, 5)).unwrap();
    assert_eq!(body(&snake), vec![(5, 5), (4, 5), (3, 5)]);
    assert_eq!(*snake.head(), XY::new(5, 5));
    assert_eq!(snake.len(), 3);
    assert!(snake.direction() == Direction::Right);
    assert!(!snake.is_growing());
}

#[test]
fn new_snake_needs_room_for_its_tail() {
    assert!(Snake::new(XY::new(0, 5)).is_none());
    assert!(Snake::new(XY::new(1, 5)).is_none());
    let snake = Snake::new(XY::new(2, 0)).unwrap();
    assert_eq!(body(&snake), vec![(2, 0), (1, 0), (0, 0)]);
    let snake = Snake::new(XY::new(255, 255)).unwrap();
    assert_eq!(body(&snake), vec![(255, 255), (254, 255), (253, 255)]);
}

#[test]
fn four_steps_to_the_right() {
    let mut snake = Snake::new(XY::new(5, 5)).unwrap();
    let mut heads = Vec::new();
    for _ in 0..4 {
        assert!(!snake.advance_or_collide_in(GRID));
        assert_eq!(snake.len(), 3);
        heads.push((snake.head().x, snake.head().y));
    }
    assert_eq!(heads, vec![(6, 5), (7, 5), (8, 5), (9, 5)]);
    assert_eq!(body(&snake), vec![(9, 5), (8, 5), (7, 5)]);
}

#[test]
fn reversal_is_ignored() {
    let mut snake = Snake::new(XY::new(5, 5)).unwrap();
    snake.change_direction(Direction::Left);
    assert!(snake.direction() == Direction::Right);
    assert!(!snake.advance_or_collide_in(GRID));
    assert_eq!(*snake.head(), XY::new(6, 5));
    assert_eq!(body(&snake), vec![(6, 5), (5, 5), (4, 5)]);
}

#[test]
fn right_edge_is_fatal_and_changes_nothing() {
    let mut snake = Snake::new(XY::new(9, 5)).unwrap();
    assert!(snake.will_collide_in(GRID));
    assert!(snake.advance_or_collide_in(GRID));
    assert_eq!(body(&snake), vec![(9, 5), (8, 5), (7, 5)]);
    assert!(snake.direction() == Direction::Right);
    assert!(!snake.is_growing());
    assert!(snake.advance_or_collide_in(GRID));
    assert_eq!(body(&snake), vec![(9, 5), (8, 5), (7, 5)]);
}

#[test]
fn top_left_and_bottom_edges_are_fatal() {
    let mut snake = Snake::new(XY::new(5, 0)).unwrap();
    snake.change_direction(Direction::Up);
    assert!(snake.advance_or_collide_in(GRID));
    assert_eq!(body(&snake), vec![(5, 0), (4, 0), (3, 0)]);

    let mut snake = Snake::new(XY::new(5, 9)).unwrap();
    snake.change_direction(Direction::Down);
    assert!(snake.advance_or_collide_in(GRID));
    assert_eq!(body(&snake), vec![(5, 9), (4, 9), (3, 9)]);

    // Down, left past the old tail, and on to the left edge.
    let mut snake = Snake::new(XY::new(2, 3)).unwrap();
    snake.change_direction(Direction::Down);
    assert!(!snake.advance_or_collide_in(GRID));
    snake.change_direction(Direction::Left);
    assert!(!snake.advance_or_collide_in(GRID));
    assert!(!snake.advance_or_collide_in(GRID));
    assert_eq!(body(&snake), vec![(0, 4), (1, 4), (2, 4)]);
    assert!(snake.advance_or_collide_in(GRID));
    assert_eq!(body(&snake), vec![(0, 4), (1, 4), (2, 4)]);
}

#[test]
fn a_growing_snake_is_stopped_by_the_wall_and_keeps_its_request() {
    let mut snake = Snake::new(XY::new(9, 5)).unwrap();
    snake.grow();
    assert!(snake.advance_or_collide_in(GRID));
    assert!(snake.is_growing());
    assert_eq!(snake.len(), 3);
}

#[test]
fn the_step_is_checked_against_both_sides_of_the_grid() {
    // The head leaves a grid that is too small for it, whichever way it moves.
    let mut snake = Snake::new(XY::new(5, 5)).unwrap();
    snake.change_direction(Direction::Up);
    assert!(snake.advance_or_collide_in(XY::new(5, 10)));
    assert!(snake.advance_or_collide_in(XY::new(10, 4)));
    assert!(snake.advance_or_collide_in(XY::new(0, 0)));
    assert!(!snake.advance_or_collide_in(XY::new(6, 5)));
    assert_eq!(*snake.head(), XY::new(5, 4));
}

#[test]
fn the_largest_coordinate_is_a_wall() {
    let mut snake = Snake::new(XY::new(255, 5)).unwrap();
    assert!(snake.advance_or_collide_in(XY::new(255, 255)));
    assert_eq!(body(&snake), vec![(255, 5), (254, 5), (253, 5)]);
}

#[test]
fn turns_take_effect_on_the_next_step() {
    let mut snake = Snake::new(XY::new(5, 5)).unwrap();
    snake.change_direction(Direction::Up);
    assert!(snake.direction() == Direction::Up);
    assert!(!snake.advance_or_collide_in(GRID));
    assert_eq!(body(&snake), vec![(5, 4), (5, 5), (4, 5)]);
    snake.change_direction(Direction::Down);
    assert!(snake.direction() == Direction::Up);
    snake.change_direction(Direction::Up);
    assert!(snake.direction() == Direction::Up);
    snake.change_direction(Direction::Right);
    assert!(snake.direction() == Direction::Right);
    assert!(!snake.advance_or_collide_in(GRID));
    assert_eq!(body(&snake), vec![(6, 4), (5, 4), (5, 5)]);
}

#[test]
fn growing_adds_one_block_however_often_it_is_asked_for() {
    for requests in 1..=5 {
        let mut snake = Snake::new(XY::new(5, 5)).unwrap();
        for _ in 0..requests {
            snake.grow();
            assert!(snake.is_growing());
        }
        assert!(!snake.advance_or_collide_in(GRID));
        assert_eq!(snake.len(), 4);
        assert_eq!(body(&snake), vec![(6, 5), (5, 5), (4, 5), (3, 5)]);
        assert!(!snake.is_growing());
        assert!(!snake.advance_or_collide_in(GRID));
        assert_eq!(snake.len(), 4);
        assert_eq!(body(&snake), vec![(7, 5), (6, 5), (5, 5), (4, 5)]);
    }
}

#[test]
fn length_never_shrinks() {
    let mut snake = Snake::new(XY::new(3, 1)).unwrap();
    let turns = [
        Direction::Right,
        Direction::Down,
        Direction::Down,
        Direction::Left,
        Direction::Left,
        Direction::Up,
        Direction::Right,
        Direction::Right,
    ];
    let mut len = snake.len();
    for (i, d) in turns.iter().enumerate() {
        snake.change_direction(*d);
        let growing = i % 3 == 0;
        if growing {
            snake.grow();
        }
        let collided = snake.advance_or_collide_in(GRID);
        if collided {
            assert_eq!(snake.len(), len);
        } else if growing {
            assert_eq!(snake.len(), len + 1);
        } else {
            assert_eq!(snake.len(), len);
        }
        len = snake.len();
    }
}

#[test]
fn moving_onto_the_tail_is_safe_when_not_growing() {
    let mut snake = coiled();
    assert!(!snake.will_collide_in(GRID));
    assert!(!snake.advance_or_collide_in(GRID));
    assert_eq!(body(&snake), vec![(5, 5), (5, 6), (6, 6), (6, 5)]);
}

#[test]
fn moving_onto_the_tail_is_fatal_when_growing() {
    let mut snake = coiled();
    snake.grow();
    assert!(snake.will_collide_in(GRID));
    assert!(snake.advance_or_collide_in(GRID));
    assert_eq!(body(&snake), vec![(5, 6), (6, 6), (6, 5), (5, 5)]);
    assert!(snake.is_growing());
}

#[test]
fn moving_into_the_body_is_fatal() {
    // Two turns between two steps get round the guard against reversal.
    let mut snake = Snake::new(XY::new(5, 3)).unwrap();
    snake.change_direction(Direction::Down);
    assert!(!snake.advance_or_collide_in(GRID));
    assert!(!snake.advance_or_collide_in(GRID));
    assert_eq!(body(&snake), vec![(5, 5), (5, 4), (5, 3)]);
    snake.change_direction(Direction::Left);
    snake.change_direction(Direction::Up);
    assert!(snake.direction() == Direction::Up);
    snake.grow();
    assert!(snake.advance_or_collide_in(GRID));
    assert_eq!(body(&snake), vec![(5, 5), (5, 4), (5, 3)]);
}

#[test]
fn a_long_snake_runs_into_its_side() {
    let mut snake = Snake::new(XY::new(5, 5)).unwrap();
    for _ in 0..3 {
        snake.grow();
        assert!(!snake.advance_or_collide_in(GRID));
    }
    assert_eq!(snake.len(), 6);
    snake.change_direction(Direction::Down);
    assert!(!snake.advance_or_collide_in(GRID));
    snake.change_direction(Direction::Left);
    assert!(!snake.advance_or_collide_in(GRID));
    snake.change_direction(Direction::Up);
    assert_eq!(body(&snake), vec![(7, 6), (8, 6), (8, 5), (7, 5), (6, 5), (5, 5)]);
    assert!(snake.advance_or_collide_in(GRID));
    assert_eq!(body(&snake), vec![(7, 6), (8, 6), (8, 5), (7, 5), (6, 5), (5, 5)]);
}

#[test]
fn occupies_tells_the_blocks_from_the_rest() {
    let snake = Snake::new(XY::new(5, 5)).unwrap();
    assert!(snake.occupies(XY::new(5, 5)));
    assert!(snake.occupies(XY::new(4, 5)));
    assert!(snake.occupies(XY::new(3, 5)));
    assert!(!snake.occupies(XY::new(2, 5)));
    assert!(!snake.occupies(XY::new(6, 5)));
    assert!(!snake.occupies(XY::new(5, 4)));
}

#[test]
fn will_collide_in_changes_nothing() {
    let snake = Snake::new(XY::new(5, 5)).unwrap();
    assert!(!snake.will_collide_in(GRID));
    assert!(snake.will_collide_in(XY::new(6, 10)));
    assert_eq!(body(&snake), vec![(5, 5), (4, 5), (3, 5)]);
}
