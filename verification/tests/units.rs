use snakelang::data::Direction;
use snakelang::snake::Snake;
use snakelang::vars::VarStore;

#[test]
fn new_snake_state() {
    let s = Snake::new(3, 5);
    assert_eq!(s.position, (3, 5));
    assert_eq!(s.direction, Direction::Up);
    assert_eq!(s.tails.len(), 0);
    assert_eq!(s.needs_add, 0);
    assert!(s.alive);
}

#[test]
fn default_snake_sits_at_origin() {
    let s = Snake::default();
    assert_eq!(s.position, (0, 0));
    assert!(s.alive);
}

#[test]
fn set_direction_takes_effect() {
    let mut s = Snake::new(0, 0);
    s.set_direction(Direction::Down);
    assert_eq!(s.direction, Direction::Down);
}

#[test]
fn shift_moves_in_each_direction() {
    let mut s = Snake::new(2, 2);
    s.set_direction(Direction::Right);
    s.shift();
    assert_eq!(s.position, (3, 2));
    s.set_direction(Direction::Down);
    s.shift();
    assert_eq!(s.position, (3, 3));
    s.set_direction(Direction::Left);
    s.shift();
    assert_eq!(s.position, (2, 3));
    s.set_direction(Direction::Up);
    s.shift();
    assert_eq!(s.position, (2, 2));
    assert!(s.alive);
}

#[test]
fn shift_up_at_top_kills() {
    let mut s = Snake::new(4, 0);
    s.shift();
    assert!(!s.alive);
    assert_eq!(s.position, (4, 0));
}

#[test]
fn shift_left_at_edge_kills() {
    let mut s = Snake::new(0, 4);
    s.set_direction(Direction::Left);
    s.shift();
    assert!(!s.alive);
    assert_eq!(s.position, (0, 4));
}

#[test]
fn add_tail_defers_on_empty_body() {
    let mut s = Snake::new(1, 1);
    s.add_tail();
    s.add_tail();
    assert_eq!(s.tails.len(), 0);
    assert_eq!(s.needs_add, 2);
    s.set_direction(Direction::Right);
    s.shift();
    // Deferred growth materializes at the pre-move position.
    assert_eq!(s.tails, vec![(1, 1), (1, 1)]);
    assert_eq!(s.needs_add, 0);
}

#[test]
fn add_tail_duplicates_last_segment() {
    let mut s = Snake::new(1, 1);
    s.add_tail();
    s.set_direction(Direction::Right);
    s.shift();
    assert_eq!(s.tails, vec![(1, 1)]);
    s.add_tail();
    assert_eq!(s.tails, vec![(1, 1), (1, 1)]);
}

#[test]
fn only_first_segment_follows_the_head() {
    let mut s = Snake::new(1, 1);
    s.add_tail();
    s.add_tail();
    s.set_direction(Direction::Right);
    s.shift();
    assert_eq!(s.tails, vec![(1, 1), (1, 1)]);
    s.shift();
    // The head-adjacent segment trails the head; segments past the first
    // stay at their creation coordinates.
    assert_eq!(s.tails, vec![(2, 1), (1, 1)]);
    s.shift();
    assert_eq!(s.tails, vec![(3, 1), (1, 1)]);
    assert_eq!(s.position, (4, 1));
}

#[test]
fn remove_tail_from_empty_is_noop() {
    let mut s = Snake::new(0, 0);
    s.remove_tail();
    assert_eq!(s.tails.len(), 0);
    assert_eq!(s.needs_add, 0);
}

#[test]
fn set_length_shrinks_and_grows() {
    let mut s = Snake::new(1, 1);
    s.set_length(3);
    assert_eq!(s.tails.len(), 0);
    assert_eq!(s.needs_add, 3);
    s.set_direction(Direction::Down);
    s.shift();
    assert_eq!(s.tails.len(), 3);
    s.set_length(1);
    assert_eq!(s.tails, vec![(1, 1)]);
    s.set_length(4);
    assert_eq!(s.tails.len(), 4);
    s.set_length(0);
    assert_eq!(s.tails.len(), 0);
}

#[test]
fn var_store_reads_back_writes() {
    let mut v = VarStore::new();
    assert_eq!(v.get('a'), None);
    v.set('a', 7);
    v.set('b', 0);
    assert_eq!(v.get('a'), Some(7));
    assert_eq!(v.get('b'), Some(0));
    assert_eq!(v.get('c'), None);
    v.set('a', 9);
    assert_eq!(v.get('a'), Some(9));
    assert_eq!(v.get('b'), Some(0));
}
