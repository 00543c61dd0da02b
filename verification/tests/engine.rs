use snakelang::data::{Command, Direction, LangError};
use snakelang::grid::Grid;

#[test]
fn end_to_end_prints_a() {
    let mut g = Grid::load("$>#A").unwrap();
    let rep = g.update_snake().unwrap();
    assert_eq!(g.position(), (1, 0));
    assert_eq!(g.direction(), Direction::Right);
    assert_eq!(rep.output, Vec::<char>::new());
    let rep = g.update_snake().unwrap();
    assert_eq!(g.position(), (2, 0));
    assert_eq!(rep.output, vec!['A']);
}

#[test]
fn set_length_then_print_len() {
    let mut g = Grid::load("$>=3x*").unwrap();
    for _ in 0..3 {
        g.update_snake().unwrap();
    }
    // The length was set while the body was empty: growth is deferred until
    // the next movement.
    assert_eq!(g.body_length(), 3);
    g.update_snake().unwrap();
    let rep = g.update_snake().unwrap();
    assert_eq!(rep.output, vec!['3']);
    assert_eq!(g.body_length(), 3);
}

#[test]
fn print_len_of_empty_body_is_zero() {
    let mut g = Grid::load("$>*").unwrap();
    g.update_snake().unwrap();
    let rep = g.update_snake().unwrap();
    assert_eq!(rep.output, vec!['0']);
}

#[test]
fn print_len_renders_all_digits() {
    let mut g = Grid::load("$>=120x*").unwrap();
    for _ in 0..6 {
        g.update_snake().unwrap();
    }
    let rep = g.update_snake().unwrap();
    assert_eq!(rep.output, vec!['1', '2', '0']);
}

#[test]
fn increase_then_decrease() {
    let mut g = Grid::load("$>+2x-1x*").unwrap();
    for _ in 0..2 {
        g.update_snake().unwrap();
    }
    assert_eq!(g.pending_growth(), 2);
    for _ in 0..2 {
        g.update_snake().unwrap();
    }
    assert_eq!(g.body_length(), 2);
    g.update_snake().unwrap();
    assert_eq!(g.body_length(), 1);
    for _ in 0..2 {
        g.update_snake().unwrap();
    }
    let rep = g.update_snake().unwrap();
    assert_eq!(rep.output, vec!['1']);
}

#[test]
fn decrease_floors_at_zero() {
    let mut g = Grid::load("$>-9x*").unwrap();
    for _ in 0..4 {
        g.update_snake().unwrap();
    }
    let rep = g.update_snake().unwrap();
    assert_eq!(rep.output, vec!['0']);
    assert_eq!(g.body_length(), 0);
}

#[test]
fn write_then_read_variable_restores_length() {
    let mut g = Grid::load("$>=2x@a=5x%a*").unwrap();
    for _ in 0..5 {
        g.update_snake().unwrap();
    }
    // '@a' has recorded the length 2.
    for _ in 0..4 {
        g.update_snake().unwrap();
    }
    assert_eq!(g.body_length(), 5);
    let rep = g.update_snake().unwrap();
    // Reading a variable echoes its name as a diagnostic line.
    assert_eq!(rep.output, vec!['a', '\n']);
    assert_eq!(g.body_length(), 2);
    g.update_snake().unwrap();
    let rep = g.update_snake().unwrap();
    assert_eq!(rep.output, vec!['2']);
}

#[test]
fn read_unwritten_variable_sets_zero() {
    let mut g = Grid::load("$>=4x%q*").unwrap();
    for _ in 0..4 {
        g.update_snake().unwrap();
    }
    assert_eq!(g.body_length(), 4);
    let rep = g.update_snake().unwrap();
    assert_eq!(rep.output, vec!['q', '\n']);
    assert_eq!(g.body_length(), 0);
    g.update_snake().unwrap();
    let rep = g.update_snake().unwrap();
    assert_eq!(rep.output, vec!['0']);
}

#[test]
fn conditional_follows_variable_state() {
    let mut g = Grid::load("$>=1x@c\n?c+4").unwrap();
    // Before 'c' is written the conditional decodes to nothing.
    assert_eq!(g.get_command(0, 1), Ok(Command::Nop));
    for _ in 0..6 {
        g.update_snake().unwrap();
    }
    // 'c' now holds 1: the conditional decodes the command two cells right.
    assert_eq!(g.get_command(0, 1), Ok(Command::IncreaseLength(4)));
}

#[test]
fn conditional_on_zero_variable_is_nop() {
    let mut g = Grid::load("$>@z\n?z#A").unwrap();
    for _ in 0..3 {
        g.update_snake().unwrap();
    }
    // 'z' holds 0: absent and zero look the same to the conditional.
    assert_eq!(g.get_command(0, 1), Ok(Command::Nop));
}

#[test]
fn escape_newline_tab_backslash() {
    let mut g = Grid::load("$>#\\n").unwrap();
    g.update_snake().unwrap();
    assert_eq!(g.update_snake().unwrap().output, vec!['\n']);

    let mut g = Grid::load("$>#\\t").unwrap();
    g.update_snake().unwrap();
    assert_eq!(g.update_snake().unwrap().output, vec!['\t']);

    let mut g = Grid::load("$>#\\\\").unwrap();
    g.update_snake().unwrap();
    assert_eq!(g.update_snake().unwrap().output, vec!['\\']);
}

#[test]
fn unknown_escape_prints_backslash_itself() {
    let mut g = Grid::load("$>#\\q").unwrap();
    g.update_snake().unwrap();
    assert_eq!(g.update_snake().unwrap().output, vec!['\\']);

    // A trailing backslash with nothing after it also prints the backslash.
    let mut g = Grid::load("$>#\\").unwrap();
    g.update_snake().unwrap();
    assert_eq!(g.update_snake().unwrap().output, vec!['\\']);
}

#[test]
fn write_variable_escapes_disabled() {
    // '@' reads its argument verbatim: the backslash itself is the name.
    let g = Grid::load("$>@\\n").unwrap();
    assert_eq!(g.get_command(2, 0), Ok(Command::WriteVariable('\\')));
}

#[test]
fn boundary_death_moving_up() {
    let mut g = Grid::load("$^").unwrap();
    let rep = g.update_snake();
    assert!(rep.is_ok());
    assert!(!g.is_alive());
    assert_eq!(g.position(), (0, 0));
    assert!(g.check_snake_dead());
}

#[test]
fn running_off_grid_ends_run() {
    let mut g = Grid::load("$>x").unwrap();
    for _ in 0..2 {
        g.update_snake().unwrap();
        assert!(!g.check_snake_dead());
    }
    g.update_snake().unwrap();
    assert_eq!(g.position(), (3, 0));
    assert!(g.is_alive());
    assert!(g.check_snake_dead());
}

#[test]
fn self_collision_ends_run() {
    let mut g = Grid::load("$>+3v\nx^<<<").unwrap();
    for _ in 0..9 {
        g.update_snake().unwrap();
        assert!(!g.check_snake_dead());
    }
    assert_eq!(g.position(), (1, 0));
    assert_eq!(g.body_length(), 3);
    g.update_snake().unwrap();
    // The head has re-entered a cell a body segment still occupies.
    assert_eq!(g.position(), (2, 0));
    assert!(g.is_alive());
    assert!(g.check_snake_dead());
}

#[test]
fn missing_number_argument_fails() {
    let mut g = Grid::load("$>+").unwrap();
    g.update_snake().unwrap();
    assert_eq!(g.update_snake().err().unwrap(), LangError::MissingNumber);
}

#[test]
fn invalid_number_argument_fails() {
    let mut g = Grid::load("$>=x").unwrap();
    g.update_snake().unwrap();
    assert_eq!(g.update_snake().err().unwrap(), LangError::InvalidNumber('x'));
}

#[test]
fn overflowing_number_argument_fails() {
    let mut g = Grid::load("$>=99999999999999999999999999").unwrap();
    g.update_snake().unwrap();
    assert_eq!(g.update_snake().err().unwrap(), LangError::NumberOverflow);
}

#[test]
fn missing_character_argument_fails() {
    let mut g = Grid::load("$>#").unwrap();
    g.update_snake().unwrap();
    assert_eq!(g.update_snake().err().unwrap(), LangError::MissingCharacter);
}

#[test]
fn number_argument_spans_digits_only() {
    let g = Grid::load("$>+21x7").unwrap();
    assert_eq!(g.get_command(2, 0), Ok(Command::IncreaseLength(21)));
}

#[test]
fn unrecognized_cells_decode_to_nothing() {
    let g = Grid::load("$>q 7").unwrap();
    assert_eq!(g.get_command(2, 0), Ok(Command::Nop));
    assert_eq!(g.get_command(3, 0), Ok(Command::Nop));
    assert_eq!(g.get_command(4, 0), Ok(Command::Nop));
    assert_eq!(g.get_command(9, 9), Ok(Command::Nop));
}
