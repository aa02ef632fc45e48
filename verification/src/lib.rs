//! A verified Brainfuck interpreter: a parser that filters program text down
//! to the eight instruction symbols and checks bracket balance, and an
//! execution engine over a fixed-size byte tape with pluggable byte-level
//! input and output handlers.

use vstd::prelude::*;
use vstd::string::StrSliceExecFns;

pub mod semantics;

use crate::semantics::bracket_balance;
use crate::semantics::count_char;
use crate::semantics::filter_ins;
use crate::semantics::lemma_balance_counts;
use crate::semantics::halts_within;
use crate::semantics::lemma_steps_to_extend;
use crate::semantics::scan_back;
use crate::semantics::scan_fwd;
use crate::semantics::step_rel;
use crate::semantics::steps_to;
use crate::semantics::State;

verus! {

/// Everything that can go wrong while parsing or executing a program.
#[derive(Debug, PartialEq, Eq)]
pub enum Error {
    /// The program text has unbalanced bracket totals.
    InvalidProgram,
    /// The dispatcher met a symbol outside the instruction alphabet; only
    /// reachable through the unvalidated construction path.
    InvalidInstruction,
    /// A bracket scan ran off the given end of the instruction sequence.
    InsPtrOutOfBounds(i32),
    /// The memory pointer would have left the tape in the given direction.
    MemPtrOutOfBounds(i32),
}

/// A Brainfuck program: an instruction sequence, a byte tape, the two
/// pointers, and the installed I/O handlers.
pub struct Program<I, O> {
    ins: Vec<char>,
    mem: Vec<u8>,
    ins_ptr: usize,
    mem_ptr: usize,
    io_in: I,
    io_out: O,
}

impl Program<DefaultInput, DefaultOutput> {
    /// Parses the given text into an instruction sequence: keeps exactly the
    /// eight instruction symbols, in order, and accepts the result only when
    /// the count of `[` equals the count of `]`.
    pub fn parse(code: &str) -> (r: Result<Vec<char>, Error>)
        ensures
            r is Ok <==> bracket_balance(filter_ins(code@)) == 0,
            r is Ok <==> count_char(filter_ins(code@), '[') == count_char(filter_ins(code@), ']'),
            r matches Ok(ins) ==> ins@ == filter_ins(code@),
            r matches Err(e) ==> e == Error::InvalidProgram,
    {
        let len = code.unicode_len();
        let mut ins: Vec<char> = Vec::new();
        let mut i: usize = 0;
        while i < len
            invariant
                i <= len,
                len == code@.len(),
                ins@ == filter_ins(code@.take(i as int)),
            decreases len - i,
        {
            let c = code.get_char(i);
            proof {
                assert(code@.take(i + 1).drop_last() =~= code@.take(i as int));
                assert(code@.take(i + 1).last() == c);
            }
            if c == '>' || c == '<' || c == '+' || c == '-' || c == '.' || c == ',' || c == '['
                || c == ']' {
                ins.push(c);
            }
            i = i + 1;
        }
        proof {
            assert(code@.take(len as int) =~= code@);
        }
        let mut open_count: usize = 0;
        let mut close_count: usize = 0;
        let mut j: usize = 0;
        while j < ins.len()
            invariant
                j <= ins@.len(),
                open_count <= j,
                close_count <= j,
                ins@ == filter_ins(code@),
                bracket_balance(ins@.take(j as int)) == open_count - close_count,
            decreases ins@.len() - j,
        {
            let c = ins[j];
            proof {
                assert(ins@.take(j + 1).drop_last() =~= ins@.take(j as int));
                assert(ins@.take(j + 1).last() == c);
            }
            if c == '[' {
                open_count = open_count + 1;
            }
            if c == ']' {
                close_count = close_count + 1;
            }
            j = j + 1;
        }
        proof {
            assert(ins@.take(ins@.len() as int) =~= ins@);
            lemma_balance_counts(ins@);
        }
        if open_count == close_count {
            Ok(ins)
        } else {
            Err(Error::InvalidProgram)
        }
    }
}

/// The tape length used when a program is built from raw text.
pub const DEFAULT_TAPE_LEN: usize = 30000;

impl<I, O> View for Program<I, O> {
    type V = State;

    closed spec fn view(&self) -> State {
        State {
            ins: self.ins@,
            mem: self.mem@,
            ins_ptr: self.ins_ptr as int,
            mem_ptr: self.mem_ptr as int,
        }
    }
}

impl<I, O> Program<I, O> {
    /// Both pointers address valid positions; see `State::wf`.
    pub open spec fn wf(&self) -> bool {
        self@.wf()
    }

    /// The installed input handler.
    pub closed spec fn input_handler(&self) -> I {
        self.io_in
    }

    /// The installed output handler.
    pub closed spec fn output_handler(&self) -> O {
        self.io_out
    }
}

impl Program<DefaultInput, DefaultOutput> {
    /// Parses the given text and builds a program over a zeroed tape of
    /// `DEFAULT_TAPE_LEN` cells, with the default I/O handlers installed.
    pub fn create(code: &str) -> (r: Result<Program<DefaultInput, DefaultOutput>, Error>)
        ensures
            r is Ok <==> bracket_balance(filter_ins(code@)) == 0,
            r matches Ok(p) ==> p@.ins == filter_ins(code@) && p@.mem.len() == DEFAULT_TAPE_LEN
                && (forall|k: int| 0 <= k < p@.mem.len() ==> p@.mem[k] == 0) && p@.ins_ptr == 0
                && p@.mem_ptr == 0 && p.wf() && p.input_handler().log() == Seq::<u8>::empty()
                && p.output_handler().log() == Seq::<u8>::empty(),
            r matches Err(e) ==> e == Error::InvalidProgram,
    {
        let ins = match Program::parse(code) {
            Ok(ins) => ins,
            Err(e) => {
                return Err(e);
            },
        };
        let mut mem: Vec<u8> = Vec::new();
        while mem.len() < DEFAULT_TAPE_LEN
            invariant
                mem@.len() <= DEFAULT_TAPE_LEN,
                forall|k: int| 0 <= k < mem@.len() ==> mem@[k] == 0,
            decreases DEFAULT_TAPE_LEN - mem@.len(),
        {
            mem.push(0);
        }
        Ok(Program::new(ins, mem))
    }

    /// Builds a program from a pre-parsed instruction sequence and a
    /// caller-supplied tape, pointers at 0 and default I/O handlers. The
    /// sequence is not re-validated: engine-level bounds checks still apply
    /// at run time.
    pub fn new(ins: Vec<char>, mem: Vec<u8>) -> (p: Program<DefaultInput, DefaultOutput>)
        requires
            mem@.len() >= 1,
        ensures
            p@.ins == ins@,
            p@.mem == mem@,
            p@.ins_ptr == 0,
            p@.mem_ptr == 0,
            p.wf(),
            p.input_handler().log() == Seq::<u8>::empty(),
            p.output_handler().log() == Seq::<u8>::empty(),
    {
        Program {
            ins,
            mem,
            ins_ptr: 0,
            mem_ptr: 0,
            io_in: DefaultInput { bytes: Ghost(Seq::empty()) },
            io_out: DefaultOutput { bytes: Ghost(Seq::empty()) },
        }
    }
}

impl<I: InputHandler, O: OutputHandler> Program<I, O> {
    /// Installs the handler that the `,` instruction reads from, in place of
    /// the one held so far. The observable state is unchanged.
    pub fn stdin<I2: InputHandler>(self, io_in: I2) -> (p: Program<I2, O>)
        ensures
            p@ == self@,
            p.input_handler() == io_in,
            p.output_handler() == self.output_handler(),
    {
        Program {
            ins: self.ins,
            mem: self.mem,
            ins_ptr: self.ins_ptr,
            mem_ptr: self.mem_ptr,
            io_in,
            io_out: self.io_out,
        }
    }

    /// Installs the handler that the `.` instruction writes to, in place of
    /// the one held so far. The observable state is unchanged.
    pub fn stdout<O2: OutputHandler>(self, io_out: O2) -> (p: Program<I, O2>)
        ensures
            p@ == self@,
            p.output_handler() == io_out,
            p.input_handler() == self.input_handler(),
    {
        Program {
            ins: self.ins,
            mem: self.mem,
            ins_ptr: self.ins_ptr,
            mem_ptr: self.mem_ptr,
            io_in: self.io_in,
            io_out,
        }
    }

    /// The instruction sequence.
    pub fn instructions(&self) -> (ins: &Vec<char>)
        ensures
            ins@ == self@.ins,
    {
        &self.ins
    }

    /// The memory tape.
    pub fn tape(&self) -> (mem: &Vec<u8>)
        ensures
            mem@ == self@.mem,
    {
        &self.mem
    }

    /// The instruction pointer; equal to the sequence length once the
    /// program has completed.
    pub fn instruction_pointer(&self) -> (i: usize)
        ensures
            i == self@.ins_ptr,
    {
        self.ins_ptr
    }

    /// The memory pointer.
    pub fn memory_pointer(&self) -> (i: usize)
        ensures
            i == self@.mem_ptr,
    {
        self.mem_ptr
    }

    /// Executes exactly one instruction, or reports completion when the
    /// instruction pointer has reached the end of the sequence. The
    /// transition performed is pinned down by `semantics::step_rel`.
    pub fn next(&mut self) -> (r: Result<bool, Error>)
        requires
            old(self).wf(),
        ensures
            final(self).wf(),
            step_rel(old(self)@, final(self)@, r),
            handler_effects(*old(self), *final(self)),
    {
        if self.ins_ptr == self.ins.len() {
            return Ok(true);
        }
        let c = self.ins[self.ins_ptr];
        match c {
            '>' => {
                if self.mem_ptr == self.mem.len() - 1 {
                    return Err(Error::MemPtrOutOfBounds(1));
                }
                self.mem_ptr = self.mem_ptr + 1;
                self.ins_ptr = self.ins_ptr + 1;
                Ok(false)
            },
            '<' => {
                if self.mem_ptr == 0 {
                    return Err(Error::MemPtrOutOfBounds(-1));
                }
                self.mem_ptr = self.mem_ptr - 1;
                self.ins_ptr = self.ins_ptr + 1;
                Ok(false)
            },
            '+' => {
                let v = self.mem[self.mem_ptr];
                let w = if v == 255 { 0 } else { v + 1 };
                self.mem.set(self.mem_ptr, w);
                self.ins_ptr = self.ins_ptr + 1;
                Ok(false)
            },
            '-' => {
                let v = self.mem[self.mem_ptr];
                let w = if v == 0 { 255 } else { v - 1 };
                self.mem.set(self.mem_ptr, w);
                self.ins_ptr = self.ins_ptr + 1;
                Ok(false)
            },
            '.' => {
                let v = self.mem[self.mem_ptr];
                self.io_out.write_byte(v);
                self.ins_ptr = self.ins_ptr + 1;
                Ok(false)
            },
            ',' => {
                let v = self.io_in.read_byte();
                self.mem.set(self.mem_ptr, v);
                self.ins_ptr = self.ins_ptr + 1;
                Ok(false)
            },
            '[' => {
                if self.mem[self.mem_ptr] == 0 {
                    match scan_forward(&self.ins, self.ins_ptr) {
                        Ok(j) => {
                            self.ins_ptr = j;
                            Ok(false)
                        },
                        Err(e) => {
                            self.ins_ptr = self.ins.len();
                            Err(e)
                        },
                    }
                } else {
                    self.ins_ptr = self.ins_ptr + 1;
                    Ok(false)
                }
            },
            ']' => {
                if self.mem[self.mem_ptr] != 0 {
                    match scan_backward(&self.ins, self.ins_ptr) {
                        Ok(j) => {
                            self.ins_ptr = j;
                            Ok(false)
                        },
                        Err(e) => {
                            self.ins_ptr = 0;
                            Err(e)
                        },
                    }
                } else {
                    self.ins_ptr = self.ins_ptr + 1;
                    Ok(false)
                }
            },
            _ => Err(Error::InvalidInstruction),
        }
    }

    /// Runs the program to completion or to its first error, consuming it:
    /// a finished or failed program must be rebuilt to execute again. The
    /// caller must supply a program whose execution is finite; a program
    /// that loops forever is out of this contract. An `Ok` result is always
    /// `Ok(true)` and comes with an execution that reaches the end of the
    /// sequence; an error is one that a single step out of some reachable
    /// state produces.
    pub fn run(self) -> (r: Result<bool, Error>)
        requires
            self.wf(),
            exists|bound: nat| halts_within(self@, bound),
        ensures
            self@.ins_ptr == self@.ins.len() ==> r == Ok::<bool, Error>(true),
            r != Ok::<bool, Error>(false),
            r == Ok::<bool, Error>(true) ==> exists|n: nat, s: State|
                #[trigger] steps_to(self@, s, n) && s.ins_ptr == s.ins.len(),
            r matches Err(e) ==> e != Error::InvalidProgram && exists|n: nat, s: State, s2: State|
                #![trigger steps_to(self@, s, n), step_rel(s, s2, Err::<bool, Error>(e))]
                steps_to(self@, s, n) && step_rel(s, s2, Err::<bool, Error>(e)),
    {
        let ghost start: State = self@;
        let ghost bound: nat = choose|bound: nat| halts_within(start, bound);
        let mut this = self;
        let ghost mut n: nat = 0;
        loop
            invariant
                this.wf(),
                steps_to(start, this@, n),
                halts_within(start, bound),
                n <= bound,
                start == self@,
                start.ins_ptr == start.ins.len() ==> this@ == start,
            decreases bound - n,
        {
            let ghost pre: State = this@;
            let r = this.next();
            match r {
                Ok(done) => {
                    if done {
                        proof {
                            assert(steps_to(start, this@, n) && this@.ins_ptr
                                == this@.ins.len());
                        }
                        return Ok(true);
                    }
                    proof {
                        lemma_steps_to_extend(start, pre, this@, n);
                        n = n + 1;
                    }
                },
                Err(e) => {
                    proof {
                        assert(steps_to(start, pre, n) && step_rel(pre, this@, Err::<
                            bool,
                            Error,
                        >(e)));
                    }
                    return Err(e);
                },
            }
        }
    }
}

/// The effect of one step on the installed handlers: `.` hands exactly the
/// current cell's value to the output handler, `,` stores exactly the byte
/// the input handler produced, and every other instruction (or completion)
/// leaves both handlers untouched.
pub open spec fn handler_effects<I: InputHandler, O: OutputHandler>(
    pre: Program<I, O>,
    post: Program<I, O>,
) -> bool {
    if pre@.ins_ptr < pre@.ins.len() && pre@.ins[pre@.ins_ptr] == '.' {
        &&& post.output_handler().log() == pre.output_handler().log().push(
            pre@.mem[pre@.mem_ptr],
        )
        &&& post.input_handler() == pre.input_handler()
    } else if pre@.ins_ptr < pre@.ins.len() && pre@.ins[pre@.ins_ptr] == ',' {
        &&& post.input_handler().log() == pre.input_handler().log().push(
            post@.mem[pre@.mem_ptr],
        )
        &&& post.output_handler() == pre.output_handler()
    } else {
        &&& post.input_handler() == pre.input_handler()
        &&& post.output_handler() == pre.output_handler()
    }
}

/// Scans forward from the `[` at `start`, tracking bracket nesting, and
/// returns the position one past the matching `]`, or the out-of-bounds
/// error when the scan runs off the end of the sequence.
fn scan_forward(ins: &Vec<char>, start: usize) -> (r: Result<usize, Error>)
    requires
        start < ins@.len(),
        ins@[start as int] == '[',
    ensures
        r matches Ok(j) ==> scan_fwd(ins@, start as int, 0) == Some(j as int) && start < j
            <= ins@.len(),
        r matches Err(e) ==> scan_fwd(ins@, start as int, 0) is None && e
            == Error::InsPtrOutOfBounds(1),
{
    let mut i: usize = start;
    let mut n: usize = 0;
    loop
        invariant
            start <= i <= ins@.len(),
            n <= i - start,
            n == 0 ==> i == start,
            start < ins@.len(),
            ins@[start as int] == '[',
            scan_fwd(ins@, start as int, 0) == scan_fwd(ins@, i as int, n as int),
        decreases ins@.len() - i,
    {
        if i == ins.len() {
            proof {
                assert(scan_fwd(ins@, i as int, n as int) is None);
            }
            return Err(Error::InsPtrOutOfBounds(1));
        }
        let c = ins[i];
        let mut m: usize = n;
        if c == '[' {
            m = n + 1;
        }
        if c == ']' {
            m = n - 1;
        }
        i = i + 1;
        proof {
            assert(scan_fwd(ins@, i - 1, n as int) == (if m == 0 {
                Some(i as int)
            } else {
                scan_fwd(ins@, i as int, m as int)
            }));
        }
        if m == 0 {
            return Ok(i);
        }
        n = m;
    }
}

/// Scans backward from the `]` at `start`, tracking bracket nesting, and
/// returns the position one past the matching `[`, or the out-of-bounds
/// error when the pointer would have to move below position 0 before the
/// counter closes. Position 0 itself is examined, so a `]` whose matching
/// `[` sits at the start of the sequence jumps rather than fails.
fn scan_backward(ins: &Vec<char>, start: usize) -> (r: Result<usize, Error>)
    requires
        start < ins@.len(),
        ins@[start as int] == ']',
    ensures
        r matches Ok(j) ==> scan_back(ins@, start as int, 0) == Some(j as int) && 0 < j <= start
            + 1,
        r matches Err(e) ==> scan_back(ins@, start as int, 0) is None && e
            == Error::InsPtrOutOfBounds(-1i32),
{
    let total = ins.len();
    let mut i: usize = start;
    let mut n: usize = 0;
    loop
        invariant
            i <= start,
            n <= start - i,
            n == 0 ==> i == start,
            start < ins@.len(),
            total == ins@.len(),
            ins@[start as int] == ']',
            scan_back(ins@, start as int, 0) == scan_back(ins@, i as int, n as int),
        decreases i,
    {
        let c = ins[i];
        let mut m: usize = n;
        if c == ']' {
            m = n + 1;
        }
        if c == '[' {
            m = n - 1;
        }
        proof {
            assert(scan_back(ins@, i as int, n as int) == (if m == 0 {
                Some(i + 1 as int)
            } else {
                scan_back(ins@, i as int - 1, m as int)
            }));
        }
        if m == 0 {
            return Ok(i + 1);
        }
        if i == 0 {
            proof {
                assert(scan_back(ins@, -1, m as int) is None);
            }
            return Err(Error::InsPtrOutOfBounds(-1));
        }
        i = i - 1;
        n = m;
    }
}

/// The default byte source: always produces 0.
pub struct DefaultInput {
    bytes: Ghost<Seq<u8>>,
}

/// The default byte sink: discards every byte.
pub struct DefaultOutput {
    bytes: Ghost<Seq<u8>>,
}

/// A byte source for the `,` instruction: the engine calls it once per `,`
/// and stores the byte it returns in the current cell. `log` is the
/// specification-level record of the bytes handed out so far; each call
/// appends the byte it returns. Implementations that do not track such a
/// record may keep the default.
pub trait InputHandler {
    open spec fn log(&self) -> Seq<u8> {
        Seq::empty()
    }

    fn read_byte(&mut self) -> (b: u8)
        ensures
            final(self).log() == old(self).log().push(b),
    ;
}

/// A byte sink for the `.` instruction: the engine calls it once per `.`
/// with the current cell's value. `log` is the specification-level record
/// of the bytes received so far; each call appends the byte it was given.
/// Implementations that do not track such a record may keep the default.
pub trait OutputHandler {
    open spec fn log(&self) -> Seq<u8> {
        Seq::empty()
    }

    fn write_byte(&mut self, byte: u8)
        ensures
            final(self).log() == old(self).log().push(byte),
    ;
}

impl InputHandler for DefaultInput {
    closed spec fn log(&self) -> Seq<u8> {
        self.bytes@
    }

    fn read_byte(&mut self) -> (b: u8)
        ensures
            b == 0,
    {
        self.bytes = Ghost(self.bytes@.push(0));
        0
    }
}

impl OutputHandler for DefaultOutput {
    closed spec fn log(&self) -> Seq<u8> {
        self.bytes@
    }

    fn write_byte(&mut self, byte: u8) {
        self.bytes = Ghost(self.bytes@.push(byte));
    }
}

} // verus!
