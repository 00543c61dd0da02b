use snakelang::data::{Direction, LangError};
use snakelang::grid::Grid;

#[test]
fn load_minimal_grid() {
    let g = Grid::load("$>").unwrap();
    assert_eq!(g.position(), (0, 0));
    assert_eq!(g.direction(), Direction::Right);
    assert_eq!(g.body_length(), 0);
    assert_eq!(g.pending_growth(), 0);
    assert!(g.is_alive());
}

#[test]
fn load_marker_off_origin() {
    let g = Grid::load("xxx\nx$<y").unwrap();
    assert_eq!(g.position(), (1, 1));
    assert_eq!(g.direction(), Direction::Left);
}

#[test]
fn load_each_direction() {
    assert_eq!(Grid::load("$^").unwrap().direction(), Direction::Up);
    assert_eq!(Grid::load("$>").unwrap().direction(), Direction::Right);
    assert_eq!(Grid::load("$v").unwrap().direction(), Direction::Down);
    assert_eq!(Grid::load("$<").unwrap().direction(), Direction::Left);
}

#[test]
fn load_no_marker_fails() {
    assert_eq!(Grid::load("abc\ndef").err().unwrap(), LangError::NoStartPosition);
    assert_eq!(Grid::load("").err().unwrap(), LangError::NoStartPosition);
}

#[test]
fn load_two_markers_fails() {
    assert_eq!(Grid::load("$>x$>").err().unwrap(), LangError::MultipleStartPositions);
    assert_eq!(Grid::load("$>\n$>").err().unwrap(), LangError::MultipleStartPositions);
}

#[test]
fn load_two_markers_beats_bad_direction() {
    assert_eq!(Grid::load("$$").err().unwrap(), LangError::MultipleStartPositions);
}

#[test]
fn load_missing_direction_fails() {
    assert_eq!(Grid::load("$").err().unwrap(), LangError::MissingDirection);
    assert_eq!(Grid::load("x$").err().unwrap(), LangError::MissingDirection);
}

#[test]
fn load_invalid_direction_fails() {
    assert_eq!(Grid::load("$x").err().unwrap(), LangError::InvalidDirection('x'));
    assert_eq!(Grid::load("$ ").err().unwrap(), LangError::InvalidDirection(' '));
}

#[test]
fn jagged_rows_read_as_absent_cells() {
    let g = Grid::load("ab\n$>c").unwrap();
    assert_eq!(g.get(0, 0), Some('a'));
    assert_eq!(g.get(2, 0), None);
    assert_eq!(g.get(2, 1), Some('c'));
    assert_eq!(g.get(0, 2), None);
}

#[test]
fn marker_cell_stays_in_grid() {
    let g = Grid::load("$>").unwrap();
    assert_eq!(g.get(0, 0), Some('$'));
    assert_eq!(g.get(1, 0), Some('>'));
}
