use brainfuckrust::eval::{run_with_fuel, runbf, Machine, RunError, TAPESIZE};
use brainfuckrust::lexer::lex;
use brainfuckrust::ops::{Instruction, OpCode};
use brainfuckrust::parser::{parse_with_limit, parsebf, ParseError, MAX_RECURSION};

fn parse_source(source: &str) -> Vec<Instruction> {
    parsebf(lex(source)).expect("source should parse")
}

fn run_source(source: &str, tape_size: usize, ptr: usize, input: Vec<u8>) -> (Result<(), RunError>, Machine) {
    let instructions = parse_source(source);
    let mut machine = Machine::new(vec![0; tape_size], ptr, input);
    let r = runbf(&instructions, &mut machine);
    (r, machine)
}

fn flatten(program: &[Instruction]) -> Vec<OpCode> {
    let mut ops = Vec::new();
    for ins in program {
        match ins {
            Instruction::IncPtr => ops.push(OpCode::IncPtr),
            Instruction::DecPtr => ops.push(OpCode::DecPtr),
            Instruction::Inc => ops.push(OpCode::Inc),
            Instruction::Dec => ops.push(OpCode::Dec),
            Instruction::Write => ops.push(OpCode::Write),
            Instruction::Read => ops.push(OpCode::Read),
            Instruction::Loop(body) => {
                ops.push(OpCode::LoopStart);
                ops.extend(flatten(body));
                ops.push(OpCode::LoopStop);
            }
        }
    }
    ops
}

#[test]
fn test_lex() {
    let payload = ".-+[]> <#,"; // the space and '#' are ignored

    let output = lex(payload);
    let canary = &Vec::from([
        OpCode::Write,
        OpCode::Dec,
        OpCode::Inc,
        OpCode::LoopStart,
        OpCode::LoopStop,
        OpCode::IncPtr,
        OpCode::DecPtr,
        OpCode::Read,
    ]);

    assert!(output.len() == canary.len() && output.iter().zip(canary).all(|(a, b)| *a == *b));
}

#[test]
fn test_parsebf() {
    let payload: Vec<OpCode> = Vec::from([
        OpCode::IncPtr,
        OpCode::DecPtr,
        OpCode::Write,
        OpCode::Read,
        OpCode::Inc,
        OpCode::Dec,
        OpCode::LoopStart,
        OpCode::Inc,
        OpCode::Dec,
        OpCode::LoopStop,
    ]);
    let canary: &Vec<Instruction> = &Vec::from([
        Instruction::IncPtr,
        Instruction::DecPtr,
        Instruction::Write,
        Instruction::Read,
        Instruction::Inc,
        Instruction::Dec,
        Instruction::Loop(Vec::from([Instruction::Inc, Instruction::Dec])),
    ]);
    let output = parsebf(payload).unwrap();

    assert!(output.len() == canary.len() && output.iter().zip(canary).all(|(a, b)| a == b));
}

#[test]
fn test_runbf() {
    let helloworld = "++++++++++
            [
                >+++++++
                >++++++++++
                >+++
                >+<<<<-
            ]   >++.>+.+++++++..+++.>++.<<+++++++++++++++.>.+++.------.
            --------.>+.>.";

    let tape: Vec<u8> = vec![0; 1024];
    let data_pointer = 512; // start at the middle of the tape
    let mut machine = Machine::new(tape, data_pointer, Vec::new());

    let opcodes = lex(helloworld);
    let instructions = parsebf(opcodes).unwrap();

    let result = runbf(&instructions, &mut machine);

    assert_eq!(result, Ok(()));
    assert_eq!("Hello World!\n".as_bytes(), machine.output.as_slice());
}

#[test]
fn lex_empty_source() {
    assert!(lex("").is_empty());
}

#[test]
fn lex_drops_other_characters_anywhere() {
    let plain = lex("+[->]");
    let noisy = lex("a+ [\n-#>x]é");
    assert_eq!(plain, noisy);
    assert_eq!(plain, vec![OpCode::Inc, OpCode::LoopStart, OpCode::Dec, OpCode::IncPtr, OpCode::LoopStop]);
}

#[test]
fn parse_empty_sequence() {
    assert_eq!(parsebf(Vec::new()), Ok(Vec::new()));
}

#[test]
fn parse_nested_loops() {
    let program = parsebf(lex("+[>[-]<-]")).unwrap();
    let expected = vec![
        Instruction::Inc,
        Instruction::Loop(vec![
            Instruction::IncPtr,
            Instruction::Loop(vec![Instruction::Dec]),
            Instruction::DecPtr,
            Instruction::Dec,
        ]),
    ];
    assert_eq!(program, expected);
}

#[test]
fn parse_then_flatten_round_trip() {
    let ops = lex("+[>[-]<-]>[[]]++[.[,]]");
    let program = parsebf(ops.clone()).unwrap();
    assert_eq!(flatten(&program), ops);
}

#[test]
fn parse_excess_loop_end_reports_its_index() {
    assert_eq!(parsebf(lex("+[-]]+")), Err(ParseError::UnbalancedLoopEnd(4)));
    assert_eq!(parsebf(lex("]")), Err(ParseError::UnbalancedLoopEnd(0)));
}

#[test]
fn parse_unclosed_loop_reports_its_start() {
    assert_eq!(parsebf(lex("+[-]+[[-]")), Err(ParseError::UnbalancedLoopStart(5)));
    assert_eq!(parsebf(lex("[")), Err(ParseError::UnbalancedLoopStart(0)));
}

#[test]
fn parse_nesting_limit() {
    let nine = "[[[[[[[[[]]]]]]]]]";
    assert!(parsebf(lex(nine)).is_ok());
    let ten = "[[[[[[[[[[]]]]]]]]]]";
    assert_eq!(parsebf(lex(ten)), Err(ParseError::NestingTooDeep(10)));
    assert!(parse_with_limit(&lex(ten), MAX_RECURSION + 1).is_ok());
}

#[test]
fn increment_256_times_is_identity() {
    let source = "+".repeat(256);
    let (r, machine) = run_source(&source, 8, 4, Vec::new());
    assert_eq!(r, Ok(()));
    assert_eq!(machine.tape, vec![0; 8]);
}

#[test]
fn cells_wrap_around() {
    let (r, machine) = run_source("-.+.", 4, 2, Vec::new());
    assert_eq!(r, Ok(()));
    assert_eq!(machine.output, vec![255, 0]);
    assert_eq!(machine.tape, vec![0; 4]);
}

#[test]
fn moving_below_start_overflows() {
    let (r, machine) = run_source(".<.", 4, 0, Vec::new());
    assert_eq!(r, Err(RunError::TapeOverflow));
    assert_eq!(machine.output, vec![0]);
    assert_eq!(machine.ptr, 0);
}

#[test]
fn moving_past_end_overflows() {
    let (r, machine) = run_source("+.>>.", 3, 1, Vec::new());
    assert_eq!(r, Err(RunError::TapeOverflow));
    assert_eq!(machine.output, vec![1]);
    assert_eq!(machine.ptr, 2);
}

#[test]
fn reads_input_bytes_in_order() {
    let (r, machine) = run_source(",.>,+.", 4, 1, vec![7, 41]);
    assert_eq!(r, Ok(()));
    assert_eq!(machine.output, vec![7, 42]);
    assert_eq!(machine.pos, 2);
}

#[test]
fn exhausted_input_is_an_error() {
    let (r, machine) = run_source(",.,.", 4, 1, vec![65]);
    assert_eq!(r, Err(RunError::InputExhausted));
    assert_eq!(machine.output, vec![65]);
}

#[test]
fn loop_budget_runs_out() {
    let instructions = parse_source("+[]");
    let mut machine = Machine::new(vec![0; 2], 0, Vec::new());
    let r = run_with_fuel(&instructions, &mut machine, 5);
    assert_eq!(r, Err(RunError::OutOfFuel));
    assert_eq!(machine.tape, vec![1, 0]);
}

#[test]
fn blank_machine_starts_at_the_middle() {
    let machine = Machine::blank(TAPESIZE, vec![1, 2]);
    assert_eq!(machine.tape.len(), 1024);
    assert!(machine.tape.iter().all(|c| *c == 0));
    assert_eq!(machine.ptr, 512);
    assert_eq!(machine.pos, 0);
    assert!(machine.output.is_empty());
}
