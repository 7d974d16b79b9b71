use key_forge::errors::InterpError;
use key_forge::exec::execute_command;
use key_forge::exec::run_script;
use key_forge::interp::{Host, Interp, MemHost};
use key_forge::resolve::{evaluate_condition, resolve_to_string, substitute_variables_in_string};
use key_forge::tokenize::tokenize_input;

const FUEL: u64 = 1000;

fn run(interp: &mut Interp, host: &mut MemHost, line: &str) -> Result<String, InterpError> {
    let args = tokenize_input(line);
    execute_command(interp, host, &args, false, FUEL)
}

fn capture(interp: &mut Interp, host: &mut MemHost, line: &str) -> Result<String, InterpError> {
    let args = tokenize_input(line);
    execute_command(interp, host, &args, true, FUEL)
}

#[test]
fn arithmetic_promotes_int_to_float() {
    let mut interp = Interp::new();
    let mut host = MemHost::new();
    run(&mut interp, &mut host, "set x 2.0").unwrap();
    run(&mut interp, &mut host, "add x 1").unwrap();
    assert_eq!(interp.vars.get_float_data("x"), Some((3.0f64).to_bits()));
}

#[test]
fn division_by_zero_leaves_the_variable_unchanged() {
    let mut interp = Interp::new();
    let mut host = MemHost::new();
    run(&mut interp, &mut host, "set x 10").unwrap();
    let r = run(&mut interp, &mut host, "div x 0");
    assert_eq!(r, Err(InterpError::DivisionByZero));
    assert_eq!(interp.vars.get_int_data("x"), Some(10));
    run(&mut interp, &mut host, "set y 2.5").unwrap();
    let r2 = run(&mut interp, &mut host, "div y 0.0");
    assert_eq!(r2, Err(InterpError::DivisionByZero));
    assert_eq!(interp.vars.get_float_data("y"), Some((2.5f64).to_bits()));
}

#[test]
fn integer_arithmetic() {
    let mut interp = Interp::new();
    let mut host = MemHost::new();
    run(&mut interp, &mut host, "set x 10").unwrap();
    run(&mut interp, &mut host, "add x 5").unwrap();
    run(&mut interp, &mut host, "sub x 3").unwrap();
    run(&mut interp, &mut host, "mul x 4").unwrap();
    run(&mut interp, &mut host, "div x 6").unwrap();
    assert_eq!(interp.vars.get_int_data("x"), Some(8));
}

#[test]
fn string_add_concatenates() {
    let mut interp = Interp::new();
    let mut host = MemHost::new();
    run(&mut interp, &mut host, "set s 'ab'").unwrap();
    run(&mut interp, &mut host, "add s 'cd'").unwrap();
    assert_eq!(interp.vars.get_string_data("s").unwrap(), "abcd");
    run(&mut interp, &mut host, "add s 7").unwrap();
    assert_eq!(interp.vars.get_string_data("s").unwrap(), "abcd7");
    let r = run(&mut interp, &mut host, "sub s 1");
    assert!(matches!(r, Err(InterpError::TypeMismatch(_))));
}

#[test]
fn for_loop_runs_five_times_and_leaves_the_variable() {
    let mut interp = Interp::new();
    let mut host = MemHost::new();
    run(&mut interp, &mut host, "for i in 0..5 do print $i").unwrap();
    assert_eq!(interp.out, vec!["0", "1", "2", "3", "4"]);
    assert_eq!(interp.vars.get_int_data("i"), Some(4));
}

#[test]
fn while_with_break_stops_before_three() {
    let mut interp = Interp::new();
    let mut host = MemHost::new();
    run(&mut interp, &mut host, "set i 0").unwrap();
    run(
        &mut interp,
        &mut host,
        "while 1 < 2 do { if $i == 3 then break ; print $i ; add i 1 }",
    )
    .unwrap();
    assert_eq!(interp.out, vec!["0", "1", "2"]);
    assert!(!interp.break_flag);
    assert!(!interp.continue_flag);
}

#[test]
fn continue_skips_an_iteration() {
    let mut interp = Interp::new();
    let mut host = MemHost::new();
    run(&mut interp, &mut host, "for i in 0..4 do { if $i == 1 then continue ; print $i }")
        .unwrap();
    assert_eq!(interp.out, vec!["0", "2", "3"]);
}

#[test]
fn capture_mode_failure_leaves_target_unset() {
    let mut interp = Interp::new();
    let mut host = MemHost::new();
    let r = run(&mut interp, &mut host, "set y $(get 5)");
    assert!(r.is_err());
    assert_eq!(interp.vars.get_int_data("y"), None);
    assert_eq!(interp.vars.get_string_data("y"), None);
    assert_eq!(interp.vars.get_float_data("y"), None);
    assert!(!interp.vars.has_variable("y"));
}

#[test]
fn capture_mode_refuses_interactive_commands() {
    let mut interp = Interp::new();
    let mut host = MemHost::new();
    let r = capture(&mut interp, &mut host, "break");
    assert_eq!(r, Err(InterpError::IllegalInCaptureMode("break".to_string())));
    let r2 = capture(&mut interp, &mut host, "clear");
    assert_eq!(r2, Err(InterpError::IllegalInCaptureMode("clear".to_string())));
}

#[test]
fn unknown_command_wording_depends_on_mode() {
    let mut interp = Interp::new();
    let mut host = MemHost::new();
    let r = run(&mut interp, &mut host, "frobnicate");
    assert_eq!(r, Err(InterpError::UnknownCommand("frobnicate".to_string())));
    let r2 = capture(&mut interp, &mut host, "frobnicate");
    assert_eq!(r2, Err(InterpError::IllegalInCaptureMode("frobnicate".to_string())));
}

#[test]
fn array_scenario() {
    let mut interp = Interp::new();
    let mut host = MemHost::new();
    run(&mut interp, &mut host, "set arr [1,2,3]").unwrap();
    run(&mut interp, &mut host, "push arr 4").unwrap();
    assert_eq!(capture(&mut interp, &mut host, "get arr 3").unwrap(), "4");
    assert_eq!(capture(&mut interp, &mut host, "len arr").unwrap(), "4");
    assert_eq!(capture(&mut interp, &mut host, "pop arr").unwrap(), "4");
    assert_eq!(capture(&mut interp, &mut host, "len arr").unwrap(), "3");
}

#[test]
fn collection_errors() {
    let mut interp = Interp::new();
    let mut host = MemHost::new();
    run(&mut interp, &mut host, "set arr [1]").unwrap();
    let r = capture(&mut interp, &mut host, "get arr 5");
    assert_eq!(r, Err(InterpError::IndexOutOfBounds("arr".to_string(), 5)));
    run(&mut interp, &mut host, "set d {a: 1}").unwrap();
    let r2 = capture(&mut interp, &mut host, "get d zzz");
    assert_eq!(r2, Err(InterpError::KeyNotFound("d".to_string(), "zzz".to_string())));
    run(&mut interp, &mut host, "set empty []").unwrap();
    let r3 = capture(&mut interp, &mut host, "pop empty");
    assert_eq!(r3, Err(InterpError::EmptyCollection("empty".to_string())));
    let r4 = run(&mut interp, &mut host, "rm nosuch");
    assert_eq!(r4, Err(InterpError::UndefinedVariable("nosuch".to_string())));
}

#[test]
fn set_collection_element_updates_and_creates() {
    let mut interp = Interp::new();
    let mut host = MemHost::new();
    run(&mut interp, &mut host, "set arr [1,2,3]").unwrap();
    capture(&mut interp, &mut host, "set arr 1 9").unwrap();
    assert_eq!(capture(&mut interp, &mut host, "get arr 1").unwrap(), "9");
    // a numeric key on an unbound name creates a padded array
    capture(&mut interp, &mut host, "set fresh 2 7").unwrap();
    assert_eq!(capture(&mut interp, &mut host, "len fresh").unwrap(), "3");
    assert_eq!(capture(&mut interp, &mut host, "get fresh 2").unwrap(), "7");
    // a textual key on an unbound name creates a dictionary
    capture(&mut interp, &mut host, "set box lid 1").unwrap();
    assert_eq!(capture(&mut interp, &mut host, "get box lid").unwrap(), "1");
    assert_eq!(capture(&mut interp, &mut host, "keys box").unwrap(), "[lid]");
    assert_eq!(capture(&mut interp, &mut host, "values box").unwrap(), "[1]");
}

#[test]
fn variable_lookup_and_substitution() {
    let mut interp = Interp::new();
    let mut host = MemHost::new();
    run(&mut interp, &mut host, "set x 5").unwrap();
    run(&mut interp, &mut host, "set msg 'x is $x!'").unwrap();
    let s = substitute_variables_in_string(&interp.vars, "x is $x and $missing");
    assert_eq!(s, "x is 5 and $missing");
    assert_eq!(resolve_to_string(&interp.vars, "$x").unwrap(), "5");
    assert_eq!(resolve_to_string(&interp.vars, "no_such").unwrap(), "no_such");
    assert_eq!(resolve_to_string(&interp.vars, "'lit'").unwrap(), "lit");
    let r = run(&mut interp, &mut host, "set y $nope");
    assert_eq!(r, Err(InterpError::UndefinedVariable("nope".to_string())));
}

#[test]
fn conditions() {
    let mut interp = Interp::new();
    let mut host = MemHost::new();
    run(&mut interp, &mut host, "set a 3").unwrap();
    assert_eq!(evaluate_condition(&interp.vars, "$a == 3").unwrap(), true);
    assert_eq!(evaluate_condition(&interp.vars, "$a != 3").unwrap(), false);
    assert_eq!(evaluate_condition(&interp.vars, "2 ge 2").unwrap(), true);
    assert_eq!(evaluate_condition(&interp.vars, "apple < banana").unwrap(), true);
    assert_eq!(evaluate_condition(&interp.vars, "1 < 2 and 3 < 2").unwrap(), false);
    assert_eq!(evaluate_condition(&interp.vars, "1 < 2 or 3 < 2").unwrap(), true);
    assert!(evaluate_condition(&interp.vars, "1 <").is_err());
    assert!(evaluate_condition(&interp.vars, "1 ?? 2").is_err());
}

#[test]
fn print_and_capture() {
    let mut interp = Interp::new();
    let mut host = MemHost::new();
    run(&mut interp, &mut host, "set x 7").unwrap();
    run(&mut interp, &mut host, "print value: $x").unwrap();
    assert_eq!(interp.out, vec!["value: 7"]);
    assert_eq!(capture(&mut interp, &mut host, "print $x").unwrap(), "7");
}

#[test]
fn repeat_accumulates_captured_output() {
    let mut interp = Interp::new();
    let mut host = MemHost::new();
    run(&mut interp, &mut host, "set x 1").unwrap();
    let r = capture(&mut interp, &mut host, "repeat 3 print $x").unwrap();
    assert_eq!(r, "1\n1\n1");
}

#[test]
fn save_and_load_restore_every_variable() {
    let mut interp = Interp::new();
    let mut host = MemHost::new();
    run(&mut interp, &mut host, "set n 42").unwrap();
    run(&mut interp, &mut host, "set s 'he:llo'").unwrap();
    run(&mut interp, &mut host, "set f 2.5").unwrap();
    run(&mut interp, &mut host, "set arr [1,2,3]").unwrap();
    run(&mut interp, &mut host, "set d {a: 7}").unwrap();
    run(&mut interp, &mut host, "save_state st").unwrap();
    run(&mut interp, &mut host, "set n 0").unwrap();
    run(&mut interp, &mut host, "rm s").unwrap();
    run(&mut interp, &mut host, "load_state st").unwrap();
    assert_eq!(interp.vars.get_int_data("n"), Some(42));
    assert_eq!(interp.vars.get_string_data("s").unwrap(), "he:llo");
    assert_eq!(interp.vars.get_float_data("f"), Some((2.5f64).to_bits()));
    assert_eq!(capture(&mut interp, &mut host, "get arr 1").unwrap(), "2");
    assert_eq!(capture(&mut interp, &mut host, "len arr").unwrap(), "3");
    assert_eq!(capture(&mut interp, &mut host, "get d a").unwrap(), "7");
}

#[test]
fn load_state_reports_the_bad_line() {
    let mut interp = Interp::new();
    let mut host = MemHost::new();
    run(&mut interp, &mut host, "set path f").unwrap();
    host.write_file("f", "// comment\nint:x:12\nint:y:oops", false).unwrap();
    let r = run(&mut interp, &mut host, "load_state f");
    assert!(matches!(r, Err(InterpError::BadNumber(_))));
}

#[test]
fn base64_commands_round_trip() {
    let mut interp = Interp::new();
    let mut host = MemHost::new();
    run(&mut interp, &mut host, "set s 'hello'").unwrap();
    let enc = capture(&mut interp, &mut host, "base64_encode s").unwrap();
    assert_eq!(enc, "aGVsbG8=");
    run(&mut interp, &mut host, "set e 'aGVsbG8='").unwrap();
    assert_eq!(capture(&mut interp, &mut host, "base64_decode e").unwrap(), "hello");
}

#[test]
fn remove_string_char_checks_bounds() {
    let mut interp = Interp::new();
    let mut host = MemHost::new();
    run(&mut interp, &mut host, "set s 'abc'").unwrap();
    run(&mut interp, &mut host, "remove_string_char s 1").unwrap();
    assert_eq!(interp.vars.get_string_data("s").unwrap(), "ac");
    let r = run(&mut interp, &mut host, "remove_string_char s 9");
    assert!(matches!(r, Err(InterpError::IndexOutOfBounds(_, 9))));
}

#[test]
fn quit_requests_an_exit() {
    let mut interp = Interp::new();
    let mut host = MemHost::new();
    run(&mut interp, &mut host, "quit 3").unwrap();
    assert_eq!(interp.exit_code, Some(3));
}

#[test]
fn vl_lists_scalars() {
    let mut interp = Interp::new();
    let mut host = MemHost::new();
    run(&mut interp, &mut host, "set x 1").unwrap();
    let listing = capture(&mut interp, &mut host, "vl i").unwrap();
    assert_eq!(listing, "=== Integer Variables (i32) ===\nx: 1 (i32)\n\n");
}

#[test]
fn random_values_stay_in_range() {
    let mut interp = Interp::new();
    let mut host = MemHost::new();
    let r = capture(&mut interp, &mut host, "get_random_num 1 5").unwrap();
    let v: i32 = r.parse().unwrap();
    assert!((1..5).contains(&v));
    let c = capture(&mut interp, &mut host, "get_random_char 1").unwrap();
    let ch = c.chars().next().unwrap();
    assert!(ch.is_ascii_uppercase());
}

#[test]
fn scripts_accumulate_blocks_and_stop_on_errors() {
    let mut interp = Interp::new();
    let mut host = MemHost::new();
    let script = "set i 0\nfor j in 0..3 do {\nadd i 1\n}\nprint $i\n";
    run_script(&mut interp, &mut host, script, FUEL).unwrap();
    assert_eq!(interp.out, vec!["3"]);
    let bad = "set x 1\nrm nosuch\nprint $x\n";
    let mut interp2 = Interp::new();
    let r = run_script(&mut interp2, &mut host, bad, FUEL);
    assert_eq!(r, Err((2, InterpError::UndefinedVariable("nosuch".to_string()))));
    assert!(interp2.out.is_empty());
}

#[test]
fn num_to_string_and_push_back() {
    let mut interp = Interp::new();
    let mut host = MemHost::new();
    run(&mut interp, &mut host, "set x 12").unwrap();
    run(&mut interp, &mut host, "num_to_string s $x").unwrap();
    assert_eq!(interp.vars.get_string_data("s").unwrap(), "12");
    run(&mut interp, &mut host, "push_to_string_back s '!'").unwrap();
    assert_eq!(interp.vars.get_string_data("s").unwrap(), "12!");
}

#[test]
fn if_else_takes_the_right_branch() {
    let mut interp = Interp::new();
    let mut host = MemHost::new();
    run(&mut interp, &mut host, "set x 1").unwrap();
    run(&mut interp, &mut host, "if $x == 1 then print yes else print no").unwrap();
    run(&mut interp, &mut host, "if $x == 2 then print yes else print no").unwrap();
    assert_eq!(interp.out, vec!["yes", "no"]);
}

#[test]
fn to_file_and_read_file_round_trip_through_the_host() {
    let mut interp = Interp::new();
    let mut host = MemHost::new();
    run(&mut interp, &mut host, "set x 9").unwrap();
    run(&mut interp, &mut host, "to_file log print $x").unwrap();
    let content = capture(&mut interp, &mut host, "read_file log").unwrap();
    assert_eq!(content, "9\n");
    run(&mut interp, &mut host, "write_file log fresh w").unwrap();
    assert_eq!(capture(&mut interp, &mut host, "read_file log").unwrap(), "fresh\n");
    let r = capture(&mut interp, &mut host, "read_file nothere");
    assert!(matches!(r, Err(InterpError::Io(_))));
}

#[test]
fn execute_file_runs_a_stored_script() {
    let mut interp = Interp::new();
    let mut host = MemHost::new();
    host.write_file("s", "set a 1\nadd a 2", false).unwrap();
    run(&mut interp, &mut host, "execute_file s").unwrap();
    assert_eq!(interp.vars.get_int_data("a"), Some(3));
}

#[test]
fn command_substitution_feeds_expressions() {
    let mut interp = Interp::new();
    let mut host = MemHost::new();
    run(&mut interp, &mut host, "set arr [5,6]").unwrap();
    run(&mut interp, &mut host, "set x $(get arr 1)").unwrap();
    assert_eq!(interp.vars.get_int_data("x"), Some(6));
    run(&mut interp, &mut host, "set n $(len arr)").unwrap();
    assert_eq!(interp.vars.get_int_data("n"), Some(2));
}

#[test]
fn quotes_force_token_boundaries() {
    assert_eq!(tokenize_input("a'b'c"), vec!["a", "b", "c"]);
    assert_eq!(tokenize_input("''"), vec![""]);
    assert_eq!(tokenize_input("x'y z'"), vec!["x", "y z"]);
}

#[test]
fn expressions_copy_arrays_and_dictionaries() {
    let mut interp = Interp::new();
    let mut host = MemHost::new();
    run(&mut interp, &mut host, "set arr [1,2]").unwrap();
    run(&mut interp, &mut host, "set d {k: 5}").unwrap();
    run(&mut interp, &mut host, "set y $arr").unwrap();
    run(&mut interp, &mut host, "set z $d").unwrap();
    assert_eq!(capture(&mut interp, &mut host, "len y").unwrap(), "2");
    assert_eq!(capture(&mut interp, &mut host, "get z k").unwrap(), "5");
    // the copy is detached from the source
    run(&mut interp, &mut host, "push y 9").unwrap();
    assert_eq!(capture(&mut interp, &mut host, "len arr").unwrap(), "2");
}

#[test]
fn add_float_appends_to_a_string_variable() {
    let mut interp = Interp::new();
    let mut host = MemHost::new();
    run(&mut interp, &mut host, "set s 'v='").unwrap();
    run(&mut interp, &mut host, "add s 2.5").unwrap();
    assert_eq!(interp.vars.get_string_data("s").unwrap(), "v=2.5");
}

#[test]
fn nested_array_literals_group_at_top_level_commas() {
    let mut interp = Interp::new();
    let mut host = MemHost::new();
    run(&mut interp, &mut host, "set m [[1,2],3]").unwrap();
    assert_eq!(capture(&mut interp, &mut host, "len m").unwrap(), "2");
    assert_eq!(capture(&mut interp, &mut host, "get m 0").unwrap(), "[1, 2]");
    assert_eq!(capture(&mut interp, &mut host, "get m 1").unwrap(), "3");
}

#[test]
fn repeat_zero_runs_nothing() {
    let mut interp = Interp::new();
    let mut host = MemHost::new();
    run(&mut interp, &mut host, "repeat 0 print hi").unwrap();
    assert!(interp.out.is_empty());
    let r = run(&mut interp, &mut host, "repeat x print hi");
    assert!(matches!(r, Err(InterpError::BadNumber(_))));
}

#[test]
fn control_commands_demand_their_keywords() {
    let mut interp = Interp::new();
    let mut host = MemHost::new();
    let r = run(&mut interp, &mut host, "if 1 < 2 print x");
    assert!(matches!(r, Err(InterpError::MalformedCommand(_))));
    let r2 = run(&mut interp, &mut host, "while 1 < 2 print x");
    assert!(matches!(r2, Err(InterpError::MalformedCommand(_))));
    let r3 = run(&mut interp, &mut host, "for i of 0..3 do print x");
    assert!(matches!(r3, Err(InterpError::MalformedCommand(_))));
}
