use bf::lexer::char_to_opcode;
use bf::machine::{Action, Machine, RuntimeError};
use bf::opcode::{Instruction, OpCode};
use bf::structure::{parse_loops, ParseError};

const TAPE_LEN: usize = 1024;

struct Run {
    machine: Machine,
    outcome: Result<(), RuntimeError>,
    output: Vec<u8>,
    consumed: usize,
    asked_with_no_input_left: bool,
}

fn run(source: &str, input: &[u8]) -> Run {
    let program = parse_loops(char_to_opcode(source.to_string())).expect("program parses");
    let mut machine = Machine::new(program, TAPE_LEN);
    let mut output = Vec::new();
    let mut consumed = 0;
    let mut pending: Option<u8> = None;
    let mut asked_with_no_input_left = false;
    for _ in 0..1_000_000 {
        match machine.step(pending.take()) {
            Ok(Action::Continue) => {}
            Ok(Action::Output(b)) => output.push(b),
            Ok(Action::NeedInput) => {
                if consumed < input.len() {
                    pending = Some(input[consumed]);
                    consumed += 1;
                } else {
                    asked_with_no_input_left = true;
                    break;
                }
            }
            Ok(Action::Halted) => {
                return Run { machine, outcome: Ok(()), output, consumed, asked_with_no_input_left };
            }
            Err(e) => {
                return Run { machine, outcome: Err(e), output, consumed, asked_with_no_input_left };
            }
        }
    }
    panic!("program did not halt (asked for input with none left: {})", asked_with_no_input_left);
}

#[test]
fn lexes_transfer_program() {
    let ops = char_to_opcode("++>++<[->+<]".to_string());
    assert_eq!(
        ops,
        vec![
            OpCode::Increment,
            OpCode::Increment,
            OpCode::IncrementPointer,
            OpCode::Increment,
            OpCode::Increment,
            OpCode::DecrementPointer,
            OpCode::LoopBegin,
            OpCode::Decrement,
            OpCode::IncrementPointer,
            OpCode::Increment,
            OpCode::DecrementPointer,
            OpCode::LoopEnd,
        ]
    );
    assert_eq!(ops.len(), 12);
}

#[test]
fn lex_drops_other_characters() {
    let plain = char_to_opcode("+[->.,<]".to_string());
    let commented = char_to_opcode("add + loop [ - > . , < ] done\n\té!".to_string());
    assert_eq!(plain, commented);
    assert!(char_to_opcode("no instructions here".to_string()).is_empty());
    assert!(char_to_opcode(String::new()).is_empty());
}

#[test]
fn structures_transfer_program() {
    let prog = parse_loops(char_to_opcode("++>++<[->+<]".to_string())).unwrap();
    assert_eq!(prog.len(), 7);
    assert!(matches!(prog[0], Instruction::Increment));
    assert!(matches!(prog[2], Instruction::IncrementPointer));
    assert!(matches!(prog[5], Instruction::DecrementPointer));
    match &prog[6] {
        Instruction::Loop(body) => {
            assert_eq!(body.len(), 4);
            assert!(matches!(body[0], Instruction::Decrement));
            assert!(matches!(body[1], Instruction::IncrementPointer));
            assert!(matches!(body[2], Instruction::Increment));
            assert!(matches!(body[3], Instruction::DecrementPointer));
        }
        _ => panic!("last instruction is not a loop"),
    }
}

#[test]
fn structures_nested_loops() {
    let prog = parse_loops(char_to_opcode("[[-]>]+".to_string())).unwrap();
    assert_eq!(prog.len(), 2);
    match &prog[0] {
        Instruction::Loop(outer) => {
            assert_eq!(outer.len(), 2);
            match &outer[0] {
                Instruction::Loop(inner) => {
                    assert_eq!(inner.len(), 1);
                    assert!(matches!(inner[0], Instruction::Decrement));
                }
                _ => panic!("expected an inner loop"),
            }
            assert!(matches!(outer[1], Instruction::IncrementPointer));
        }
        _ => panic!("expected an outer loop"),
    }
    assert!(matches!(prog[1], Instruction::Increment));
}

#[test]
fn runs_transfer_program() {
    let r = run("++>++<[->+<]", &[]);
    assert_eq!(r.outcome, Ok(()));
    assert_eq!(r.machine.pointer(), 512);
    assert_eq!(r.machine.tape()[512], 0);
    assert_eq!(r.machine.tape()[513], 4);
    assert_eq!(r.machine.tape().len(), TAPE_LEN);
}

#[test]
fn unmatched_start_fails() {
    assert!(matches!(parse_loops(char_to_opcode("[".to_string())), Err(ParseError::UnmatchedLoopStart(0))));
}

#[test]
fn unmatched_end_fails() {
    assert!(matches!(parse_loops(char_to_opcode("]".to_string())), Err(ParseError::UnmatchedLoopEnd(0))));
}

#[test]
fn unmatched_positions() {
    assert!(matches!(parse_loops(char_to_opcode("+]".to_string())), Err(ParseError::UnmatchedLoopEnd(1))));
    assert!(matches!(parse_loops(char_to_opcode("[]]".to_string())), Err(ParseError::UnmatchedLoopEnd(2))));
    assert!(matches!(parse_loops(char_to_opcode("[][".to_string())), Err(ParseError::UnmatchedLoopStart(2))));
    assert!(matches!(parse_loops(char_to_opcode("[[]".to_string())), Err(ParseError::UnmatchedLoopStart(0))));
    assert!(matches!(parse_loops(char_to_opcode("+[[]".to_string())), Err(ParseError::UnmatchedLoopStart(1))));
    assert!(matches!(parse_loops(Vec::new()), Ok(v) if v.is_empty()));
}

#[test]
fn zero_guard_skips_loop() {
    let r = run("[+]", &[]);
    assert_eq!(r.outcome, Ok(()));
    assert!(r.machine.tape().iter().all(|&c| c == 0));
    assert_eq!(r.machine.pointer(), 512);
}

#[test]
fn read_then_write_echoes_one_byte() {
    let r = run(",.", &[65]);
    assert_eq!(r.outcome, Ok(()));
    assert_eq!(r.output, vec![65]);
    assert_eq!(r.consumed, 1);
    assert!(!r.asked_with_no_input_left);
    assert_eq!(r.machine.tape()[512], 65);
}

#[test]
fn read_without_input_asks_and_waits() {
    let program = parse_loops(char_to_opcode(",".to_string())).unwrap();
    let mut m = Machine::new(program, TAPE_LEN);
    assert_eq!(m.step(None), Ok(Action::NeedInput));
    assert_eq!(m.step(None), Ok(Action::NeedInput));
    assert_eq!(m.step(Some(7)), Ok(Action::Continue));
    assert_eq!(m.tape()[512], 7);
    assert_eq!(m.step(None), Ok(Action::Halted));
}

#[test]
fn below_tape_is_fatal_on_use() {
    let src = format!("{}+", "<".repeat(513));
    let r = run(&src, &[]);
    assert_eq!(r.outcome, Err(RuntimeError::PointerOutOfBounds(-1)));
    assert!(r.machine.tape().iter().all(|&c| c == 0));
}

#[test]
fn past_tape_is_fatal_on_use() {
    let src = format!("{}.", ">".repeat(512));
    let r = run(&src, &[]);
    assert_eq!(r.outcome, Err(RuntimeError::PointerOutOfBounds(1024)));
    assert!(r.output.is_empty());
    let r = run(&format!("{}[]", ">".repeat(600)), &[]);
    assert_eq!(r.outcome, Err(RuntimeError::PointerOutOfBounds(1112)));
}

#[test]
fn moving_off_and_back_is_harmless() {
    let src = format!("{}{}+", "<".repeat(520), ">".repeat(8));
    let r = run(&src, &[]);
    assert_eq!(r.outcome, Ok(()));
    assert_eq!(r.machine.pointer(), 0);
    assert_eq!(r.machine.tape()[0], 1);
}

#[test]
fn cell_overflow_and_underflow_are_fatal() {
    let r = run(&"+".repeat(255), &[]);
    assert_eq!(r.outcome, Ok(()));
    assert_eq!(r.machine.tape()[512], 255);
    let r = run(&"+".repeat(256), &[]);
    assert_eq!(r.outcome, Err(RuntimeError::CellOverflow(512)));
    assert_eq!(r.machine.tape()[512], 255);
    let r = run(">-", &[]);
    assert_eq!(r.outcome, Err(RuntimeError::CellUnderflow(513)));
}

#[test]
fn prints_hello() {
    let src = "++++++++[>+++++++++<-]>.<+++[>+++++++++++<-]>.";
    let r = run(src, &[]);
    assert_eq!(r.outcome, Ok(()));
    assert_eq!(r.output, b"Hi".to_vec());
}

#[test]
fn guard_rechecked_after_each_pass() {
    let r = run("+++[>++<-]>[>+<-]", &[]);
    assert_eq!(r.outcome, Ok(()));
    assert_eq!(r.machine.tape()[512], 0);
    assert_eq!(r.machine.tape()[513], 0);
    assert_eq!(r.machine.tape()[514], 6);
}
