use befunge93::b93::{Direction, Effect, Error, Need, StepInput, B93};
use befunge93::numeric::render_number;

fn load(src: &str) -> B93 {
    B93::from_stream(src.as_bytes()).unwrap()
}

/// Drives the machine to completion, answering its input needs from the
/// given queues, and collects everything it emits.
fn run(
    vm: &mut B93,
    mut lines: Vec<&str>,
    mut bytes: Vec<u8>,
    mut rands: Vec<u8>,
) -> Result<Vec<u8>, Error> {
    let mut out = Vec::new();
    loop {
        if !vm.check_arith() {
            panic!("arithmetic trap");
        }
        let input = match vm.need() {
            Need::Nothing => StepInput::Nothing,
            Need::Random => StepInput::Random(if rands.is_empty() { 0 } else { rands.remove(0) }),
            Need::InputLine => StepInput::Line(if lines.is_empty() {
                String::new()
            } else {
                lines.remove(0).to_string()
            }),
            Need::InputByte => StepInput::Byte(if bytes.is_empty() { 0 } else { bytes.remove(0) }),
        };
        match vm.step(input)? {
            Some(Effect::Quiet) => {}
            Some(Effect::PrintNumber(v)) => out.extend(render_number(v)),
            Some(Effect::PrintByte(b)) => out.push(b),
            None => return Ok(out),
        }
    }
}

#[test]
fn halt_program_halts_first_step() {
    let mut vm = load("@");
    let r = vm.step(StepInput::Nothing);
    assert!(matches!(r, Ok(None)));
    assert_eq!(vm.position(), (0, 0));
    assert_eq!(vm.stack_len(), 0);
}

#[test]
fn wraparound_up_from_row_zero() {
    let mut vm = load("^");
    assert!(matches!(vm.step(StepInput::Nothing), Ok(Some(Effect::Quiet))));
    assert_eq!(vm.direction(), Direction::Up);
    assert_eq!(vm.position(), (24, 0));
}

#[test]
fn wraparound_left_from_column_zero() {
    let mut vm = load("<");
    assert!(matches!(vm.step(StepInput::Nothing), Ok(Some(Effect::Quiet))));
    assert_eq!(vm.direction(), Direction::Left);
    assert_eq!(vm.position(), (0, 79));
}

#[test]
fn wraparound_down_from_last_row() {
    let mut vm = load("v");
    for _ in 0..24 {
        vm.step(StepInput::Nothing).unwrap();
    }
    assert_eq!(vm.position(), (24, 0));
    vm.step(StepInput::Nothing).unwrap();
    assert_eq!(vm.position(), (0, 0));
}

#[test]
fn wraparound_right_from_last_column() {
    let mut vm = B93::default();
    for _ in 0..79 {
        vm.step(StepInput::Nothing).unwrap();
    }
    assert_eq!(vm.position(), (0, 79));
    vm.step(StepInput::Nothing).unwrap();
    assert_eq!(vm.position(), (0, 0));
}

#[test]
fn underflow_pops_zero() {
    let mut vm = load("$.@");
    let out = run(&mut vm, vec![], vec![], vec![]).unwrap();
    assert_eq!(out, b"0 ".to_vec());
}

#[test]
fn pop_on_empty_stack_yields_zero() {
    let mut vm = B93::default();
    assert_eq!(vm.pop(), 0);
    assert_eq!(vm.stack_len(), 0);
}

#[test]
fn addition_program_prints_seven() {
    let mut vm = load("&&+.@");
    let out = run(&mut vm, vec!["3", "4"], vec![], vec![]).unwrap();
    assert_eq!(out, b"7 ".to_vec());
}

#[test]
fn string_mode_pushes_codes_and_prints_reversed() {
    let mut vm = load("\"AB\",,@");
    let out = run(&mut vm, vec![], vec![], vec![]).unwrap();
    assert_eq!(out, b"BA".to_vec());
}

#[test]
fn output_of_200_is_invalid_character() {
    let mut vm = load("&,@");
    let r = run(&mut vm, vec!["200"], vec![], vec![]);
    assert!(matches!(r, Err(Error::InvalidCharacter(200))));
}

#[test]
fn grid_write_then_read_yields_written_value() {
    let mut vm = load("&&&p&&g.@");
    let out = run(&mut vm, vec!["65", "0", "0", "0", "0"], vec![], vec![]).unwrap();
    assert_eq!(out, b"65 ".to_vec());
}

#[test]
fn random_two_sets_direction_left() {
    let mut vm = load("?");
    assert!(matches!(vm.step(StepInput::Random(2)), Ok(Some(Effect::Quiet))));
    assert_eq!(vm.direction(), Direction::Left);
}

#[test]
fn random_mapping_of_all_four_values() {
    for (r, d) in [
        (0u8, Direction::Up),
        (1, Direction::Down),
        (2, Direction::Left),
        (3, Direction::Right),
    ] {
        let mut vm = load("?");
        vm.step(StepInput::Random(r)).unwrap();
        assert_eq!(vm.direction(), d);
    }
}

#[test]
fn division_truncates_toward_zero() {
    let mut vm = load("&&/.@");
    let out = run(&mut vm, vec!["2", "7"], vec![], vec![]).unwrap();
    assert_eq!(out, b"3 ".to_vec());
    let mut vm = load("&&/.@");
    let out = run(&mut vm, vec!["2", "-7"], vec![], vec![]).unwrap();
    assert_eq!(out, b"-3 ".to_vec());
}

#[test]
fn remainder_takes_sign_of_dividend() {
    let mut vm = load("&&%.@");
    let out = run(&mut vm, vec!["2", "-7"], vec![], vec![]).unwrap();
    assert_eq!(out, b"-1 ".to_vec());
    let mut vm = load("&&%.@");
    let out = run(&mut vm, vec!["2", "7"], vec![], vec![]).unwrap();
    assert_eq!(out, b"1 ".to_vec());
}

#[test]
fn duplicate_copies_the_bottom_of_the_stack() {
    let mut vm = load("&&:...@");
    let out = run(&mut vm, vec!["5", "9"], vec![], vec![]).unwrap();
    assert_eq!(out, b"5 9 5 ".to_vec());
}

#[test]
fn swap_exchanges_the_top_two_values() {
    let mut vm = load("&&\\..@");
    let out = run(&mut vm, vec!["1", "2"], vec![], vec![]).unwrap();
    assert_eq!(out, b"1 2 ".to_vec());
}

#[test]
fn greater_than_is_strict() {
    let mut vm = load("&&`.@");
    let out = run(&mut vm, vec!["3", "2"], vec![], vec![]).unwrap();
    assert_eq!(out, b"0 ".to_vec());
    let mut vm = load("&&`.@");
    let out = run(&mut vm, vec!["2", "3"], vec![], vec![]).unwrap();
    assert_eq!(out, b"1 ".to_vec());
    let mut vm = load("&&`.@");
    let out = run(&mut vm, vec!["3", "3"], vec![], vec![]).unwrap();
    assert_eq!(out, b"0 ".to_vec());
}

#[test]
fn logical_not_inverts_zero_and_nonzero() {
    let mut vm = load("&!.@");
    let out = run(&mut vm, vec!["0"], vec![], vec![]).unwrap();
    assert_eq!(out, b"1 ".to_vec());
    let mut vm = load("&!.@");
    let out = run(&mut vm, vec!["5"], vec![], vec![]).unwrap();
    assert_eq!(out, b"0 ".to_vec());
}

#[test]
fn horizontal_branch_goes_right_on_zero() {
    let mut vm = load("&_@");
    let out = run(&mut vm, vec!["0"], vec![], vec![]).unwrap();
    assert_eq!(out, Vec::<u8>::new());
}

#[test]
fn horizontal_branch_goes_left_on_nonzero() {
    let mut vm = load("&_");
    vm.step(StepInput::Line("1".to_string())).unwrap();
    vm.step(StepInput::Nothing).unwrap();
    assert_eq!(vm.direction(), Direction::Left);
    assert_eq!(vm.position(), (0, 0));
}

#[test]
fn vertical_branch_goes_up_on_nonzero_down_on_zero() {
    let mut vm = load("&|");
    vm.step(StepInput::Line("1".to_string())).unwrap();
    vm.step(StepInput::Nothing).unwrap();
    assert_eq!(vm.direction(), Direction::Up);
    assert_eq!(vm.position(), (24, 1));
    let mut vm = load("&|");
    vm.step(StepInput::Line("0".to_string())).unwrap();
    vm.step(StepInput::Nothing).unwrap();
    assert_eq!(vm.direction(), Direction::Down);
    assert_eq!(vm.position(), (1, 1));
}

#[test]
fn bridge_skips_the_next_cell() {
    let mut vm = load("#@@");
    assert!(matches!(vm.step(StepInput::Nothing), Ok(Some(Effect::Quiet))));
    assert_eq!(vm.position(), (0, 1));
    assert!(matches!(vm.step(StepInput::Nothing), Ok(Some(Effect::Quiet))));
    assert_eq!(vm.position(), (0, 2));
    assert!(matches!(vm.step(StepInput::Nothing), Ok(None)));
}

#[test]
fn byte_input_pushes_unsigned_value() {
    let mut vm = load("~.@");
    let out = run(&mut vm, vec![], vec![65], vec![]).unwrap();
    assert_eq!(out, b"65 ".to_vec());
}

#[test]
fn unknown_byte_is_invalid_instruction() {
    let mut vm = load("3");
    let r = vm.step(StepInput::Nothing);
    assert!(matches!(r, Err(Error::InvalidInstruction(51))));
    assert_eq!(vm.position(), (0, 0));
}

#[test]
fn malformed_numeric_line_is_invalid_numeric() {
    let mut vm = load("&");
    let r = vm.step(StepInput::Line("abc".to_string()));
    match r {
        Err(Error::InvalidNumeric(s)) => assert_eq!(s, "abc"),
        _ => panic!("expected an invalid numeric fault"),
    }
}

#[test]
fn empty_numeric_line_is_invalid_numeric() {
    let mut vm = load("&");
    let r = vm.step(StepInput::Line(String::new()));
    assert!(matches!(r, Err(Error::InvalidNumeric(_))));
}

#[test]
fn numeric_input_trims_and_accepts_signs() {
    let mut vm = load("&.@");
    let out = run(&mut vm, vec![" 42 \n"], vec![], vec![]).unwrap();
    assert_eq!(out, b"42 ".to_vec());
    let mut vm = load("&.@");
    let out = run(&mut vm, vec!["+5"], vec![], vec![]).unwrap();
    assert_eq!(out, b"5 ".to_vec());
    let mut vm = load("&.@");
    let out = run(&mut vm, vec!["007"], vec![], vec![]).unwrap();
    assert_eq!(out, b"7 ".to_vec());
    let mut vm = load("&.@");
    let out = run(&mut vm, vec!["-9223372036854775808"], vec![], vec![]).unwrap();
    assert_eq!(out, b"-9223372036854775808 ".to_vec());
}

#[test]
fn numeric_input_overflow_is_invalid_numeric() {
    let mut vm = load("&");
    let r = vm.step(StepInput::Line("9223372036854775808".to_string()));
    assert!(matches!(r, Err(Error::InvalidNumeric(_))));
}

#[test]
fn out_of_bounds_grid_read_yields_space() {
    let mut vm = load("&&g.@");
    let out = run(&mut vm, vec!["-1", "0"], vec![], vec![]).unwrap();
    assert_eq!(out, b"32 ".to_vec());
}

#[test]
fn out_of_bounds_grid_write_is_ignored() {
    let mut vm = load("&&&p@");
    let out = run(&mut vm, vec!["65", "99", "0"], vec![], vec![]).unwrap();
    assert_eq!(out, Vec::<u8>::new());
}

#[test]
fn grid_write_truncates_to_one_byte() {
    // 321 = 256 + 65: the stored byte is 65, read back by g.
    let mut vm = load("&&&p&&g.@");
    let out = run(&mut vm, vec!["321", "0", "1", "0", "1"], vec![], vec![]).unwrap();
    assert_eq!(out, b"65 ".to_vec());
}

#[test]
fn push_pop_and_bottom_peek() {
    let mut vm = B93::default();
    vm.push(1);
    vm.push(2);
    assert_eq!(vm.peek(), 1);
    assert_eq!(vm.pop(), 2);
    assert_eq!(vm.pop(), 1);
    assert_eq!(vm.pop(), 0);
}

#[test]
fn string_mode_ends_at_the_closing_quote() {
    let mut vm = load("\"A\"@");
    vm.step(StepInput::Nothing).unwrap();
    vm.step(StepInput::Nothing).unwrap();
    vm.step(StepInput::Nothing).unwrap();
    assert_eq!(vm.stack_len(), 1);
    assert!(matches!(vm.step(StepInput::Nothing), Ok(None)));
    assert_eq!(vm.pop(), 65);
}
