use std::cell::RefCell;
use std::rc::Rc;

use brainfuck::Error;
use brainfuck::InputHandler;
use brainfuck::OutputHandler;
use brainfuck::Program;

struct BufferOutput(Rc<RefCell<Vec<u8>>>);

impl OutputHandler for BufferOutput {
    fn write_byte(&mut self, byte: u8) {
        self.0.borrow_mut().push(byte);
    }
}

struct ConstInput(u8);

impl InputHandler for ConstInput {
    fn read_byte(&mut self) -> u8 {
        self.0
    }
}

struct FlagInput(Rc<RefCell<bool>>);

impl InputHandler for FlagInput {
    fn read_byte(&mut self) -> u8 {
        *self.0.borrow_mut() = true;
        0
    }
}

/// Drives the program step by step and returns the number of executed
/// instructions, failing the test if `limit` steps do not finish it.
fn step_to_completion<I: InputHandler, O: OutputHandler>(
    p: &mut Program<I, O>,
    limit: usize,
) -> usize {
    let mut steps = 0;
    loop {
        match p.next() {
            Ok(true) => return steps,
            Ok(false) => steps += 1,
            Err(e) => panic!("unexpected error after {} steps: {:?}", steps, e),
        }
        assert!(steps <= limit, "program did not finish within {} steps", limit);
    }
}

#[test]
fn increment_wraps_around_at_256() {
    let mut p = Program::new(vec!['+'], vec![255]);
    assert_eq!(p.next(), Ok(false));
    assert_eq!(p.tape()[0], 0);
    assert_eq!(p.next(), Ok(true));
}

#[test]
fn decrement_wraps_around_at_zero() {
    let mut p = Program::new(vec!['-'], vec![0]);
    assert_eq!(p.next(), Ok(false));
    assert_eq!(p.tape()[0], 255);
}

#[test]
fn move_right_at_last_cell_is_out_of_bounds() {
    let mut p = Program::new(vec!['>'], vec![0]);
    assert_eq!(p.next(), Err(Error::MemPtrOutOfBounds(1)));
    assert_eq!(p.memory_pointer(), 0);
}

#[test]
fn move_left_at_first_cell_is_out_of_bounds() {
    let mut p = Program::new(vec!['<'], vec![0, 0]);
    assert_eq!(p.next(), Err(Error::MemPtrOutOfBounds(-1)));
}

#[test]
fn pointer_moves_within_bounds() {
    let mut p = Program::new(vec!['>', '+', '<'], vec![0, 0]);
    assert_eq!(step_to_completion(&mut p, 10), 3);
    assert_eq!(p.memory_pointer(), 0);
    assert_eq!(p.tape(), &vec![0, 1]);
}

#[test]
fn unrecognized_symbol_is_invalid_instruction() {
    let mut p = Program::new(vec!['x'], vec![0]);
    assert_eq!(p.next(), Err(Error::InvalidInstruction));
}

#[test]
fn forward_scan_off_the_end_is_out_of_bounds() {
    let mut p = Program::new(vec!['['], vec![0]);
    assert_eq!(p.next(), Err(Error::InsPtrOutOfBounds(1)));
    assert_eq!(p.instruction_pointer(), 1);
}

#[test]
fn backward_jump_finds_a_match_at_the_sequence_start() {
    let ins = Program::parse("[]").unwrap();
    let mut p = Program::new(ins, vec![1]);
    assert_eq!(p.next(), Ok(false));
    assert_eq!(p.instruction_pointer(), 1);
    assert_eq!(p.next(), Ok(false));
    assert_eq!(p.instruction_pointer(), 1);
}

#[test]
fn backward_scan_past_the_start_is_out_of_bounds() {
    let ins = Program::parse("][").unwrap();
    let mut p = Program::new(ins, vec![1]);
    assert_eq!(p.next(), Err(Error::InsPtrOutOfBounds(-1)));
    assert_eq!(p.instruction_pointer(), 0);
}

#[test]
fn loop_with_zero_cell_is_skipped_in_one_step() {
    let ins = Program::parse("[-]").unwrap();
    let mut p = Program::new(ins, vec![0]);
    assert_eq!(p.next(), Ok(false));
    assert_eq!(p.instruction_pointer(), 3);
    assert_eq!(p.tape()[0], 0);
    assert_eq!(p.next(), Ok(true));

    let ins = Program::parse("[-]").unwrap();
    let p = Program::new(ins, vec![0]);
    assert_eq!(p.run(), Ok(true));
}

#[test]
fn loop_decrements_cell_to_zero() {
    let ins = Program::parse("++[-]").unwrap();
    let mut p = Program::new(ins, vec![0]);
    step_to_completion(&mut p, 100);
    assert_eq!(p.tape()[0], 0);
    assert_eq!(p.instruction_pointer(), 5);
}

#[test]
fn output_hands_cell_value_to_the_handler() {
    let buf = Rc::new(RefCell::new(Vec::new()));
    let mut p = Program::new(vec!['.'], vec![65]).stdout(BufferOutput(buf.clone()));
    assert_eq!(p.next(), Ok(false));
    assert_eq!(*buf.borrow(), vec![65]);
}

#[test]
fn input_stores_handler_byte_into_cell() {
    let mut p = Program::new(vec![','], vec![7]).stdin(ConstInput(42));
    assert_eq!(p.next(), Ok(false));
    assert_eq!(p.tape()[0], 42);
}

#[test]
fn default_input_returns_zero() {
    let mut p = Program::new(vec![','], vec![7]);
    assert_eq!(p.next(), Ok(false));
    assert_eq!(p.tape()[0], 0);
}

#[test]
fn run_on_empty_program_returns_true_immediately() {
    let p = Program::create("").unwrap();
    assert_eq!(p.run(), Ok(true));
}

#[test]
fn run_is_done_once_the_pointer_reaches_the_end() {
    let mut p = Program::new(vec!['+'], vec![0]);
    assert_eq!(p.next(), Ok(false));
    assert_eq!(p.next(), Ok(true));
    assert_eq!(p.next(), Ok(true));
}

#[test]
fn create_rejects_unbalanced_text() {
    match Program::create("++[") {
        Err(e) => assert_eq!(e, Error::InvalidProgram),
        Ok(_) => panic!("unbalanced text must not build a program"),
    }
}

#[test]
fn create_uses_default_tape_length() {
    let p = Program::create("+").unwrap();
    assert_eq!(p.tape().len(), brainfuck::DEFAULT_TAPE_LEN);
    assert!(p.tape().iter().all(|&b| b == 0));
}

#[test]
fn create_matches_new_with_explicit_default_tape() {
    let text = "++[-]>+<loop done.";
    let mut from_text = Program::create(text).unwrap();
    let mut from_parts = Program::new(
        Program::parse(text).unwrap(),
        vec![0; brainfuck::DEFAULT_TAPE_LEN],
    );
    assert_eq!(from_text.instructions(), from_parts.instructions());
    loop {
        assert_eq!(from_text.instruction_pointer(), from_parts.instruction_pointer());
        assert_eq!(from_text.memory_pointer(), from_parts.memory_pointer());
        assert_eq!(from_text.tape(), from_parts.tape());
        let a = from_text.next();
        let b = from_parts.next();
        assert_eq!(a, b);
        match a {
            Ok(true) => break,
            Ok(false) => (),
            Err(e) => panic!("unexpected error: {:?}", e),
        }
    }
}

#[test]
fn hello_world_writes_the_classic_bytes() {
    let text = "++++++++[>++++[>++>+++>+++>+<<<<-]>+>+>->>+[<]<-]>>.>---.+++++++..+++.>>.<-.<.+++.------.--------.>>+.>++.";
    let out = Rc::new(RefCell::new(Vec::new()));
    let asked = Rc::new(RefCell::new(false));
    let p = Program::create(text)
        .unwrap()
        .stdout(BufferOutput(out.clone()))
        .stdin(FlagInput(asked.clone()));
    assert_eq!(p.run(), Ok(true));
    assert_eq!(*out.borrow(), b"Hello World!\n".to_vec());
    assert!(!*asked.borrow(), "the input handler must never be invoked");
}
