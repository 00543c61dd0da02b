use snakelang::data::LangError;
use snakelang::grid::Grid;
use snakelang::input::{finish_number_input, input_apply_key, InputStep, Keystroke};

#[test]
fn number_input_suspends_and_resumes() {
    let mut g = Grid::load("$>&").unwrap();
    g.update_snake().unwrap();
    let rep = g.update_snake().unwrap();
    assert!(rep.awaiting_input);
    assert_eq!(rep.output, Vec::<char>::new());
    g.supply_number(47);
    assert_eq!(g.pending_growth(), 47);
    g.update_snake().unwrap();
    assert_eq!(g.body_length(), 47);
}

#[test]
fn keystrokes_edit_the_buffer() {
    let mut buffer: Vec<char> = Vec::new();
    assert_eq!(input_apply_key(&mut buffer, Keystroke::Character('4')), InputStep::Pending);
    assert_eq!(input_apply_key(&mut buffer, Keystroke::Character('x')), InputStep::Pending);
    assert_eq!(input_apply_key(&mut buffer, Keystroke::Character('2')), InputStep::Pending);
    assert_eq!(buffer, vec!['4', '2']);
    assert_eq!(input_apply_key(&mut buffer, Keystroke::Backspace), InputStep::Pending);
    assert_eq!(buffer, vec!['4']);
    assert_eq!(input_apply_key(&mut buffer, Keystroke::Character('7')), InputStep::Pending);
    assert_eq!(input_apply_key(&mut buffer, Keystroke::Enter), InputStep::Finished);
    assert_eq!(buffer, vec!['4', '7']);
    assert_eq!(finish_number_input(&buffer), Ok(47));
}

#[test]
fn backspace_on_empty_buffer_is_harmless() {
    let mut buffer: Vec<char> = Vec::new();
    assert_eq!(input_apply_key(&mut buffer, Keystroke::Backspace), InputStep::Pending);
    assert_eq!(buffer, Vec::<char>::new());
}

#[test]
fn interrupt_aborts_collection() {
    let mut buffer: Vec<char> = Vec::new();
    assert_eq!(input_apply_key(&mut buffer, Keystroke::Interrupt), InputStep::Aborted);
}

#[test]
fn empty_buffer_fails_to_parse() {
    let buffer: Vec<char> = Vec::new();
    assert_eq!(finish_number_input(&buffer), Err(LangError::EmptyNumberInput));
}

#[test]
fn oversized_buffer_fails_to_parse() {
    let buffer: Vec<char> = "99999999999999999999999999".chars().collect();
    assert_eq!(finish_number_input(&buffer), Err(LangError::NumberOverflow));
}

#[test]
fn nondigit_buffer_fails_to_parse() {
    let buffer: Vec<char> = vec!['4', 'x', '2'];
    assert_eq!(finish_number_input(&buffer), Err(LangError::InvalidNumber('x')));
}

#[test]
fn zero_parses() {
    let buffer: Vec<char> = vec!['0'];
    assert_eq!(finish_number_input(&buffer), Ok(0));
}
