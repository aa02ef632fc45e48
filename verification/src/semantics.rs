//! Mathematical model of the interpreter: the instruction alphabet, the
//! bracket-balance check, the bracket-matching scans, and the one-step
//! transition relation of the execution engine.

use vstd::prelude::*;
use crate::Error;

verus! {

/// The eight recognized instruction symbols.
pub open spec fn is_instruction(c: char) -> bool {
    c == '>' || c == '<' || c == '+' || c == '-' || c == '.' || c == ',' || c == '[' || c == ']'
}

/// The instruction characters of `s`, in their original relative order,
/// with every other character removed.
pub open spec fn filter_ins(s: Seq<char>) -> Seq<char>
    decreases s.len(),
{
    if s.len() == 0 {
        Seq::empty()
    } else if is_instruction(s.last()) {
        filter_ins(s.drop_last()).push(s.last())
    } else {
        filter_ins(s.drop_last())
    }
}

/// How many times `c` occurs in `s`.
pub open spec fn count_char(s: Seq<char>, c: char) -> nat
    decreases s.len(),
{
    if s.len() == 0 {
        0
    } else {
        count_char(s.drop_last(), c) + (if s.last() == c { 1nat } else { 0nat })
    }
}

/// `[` contributes +1, `]` contributes -1, every other character 0.
pub open spec fn bracket_delta(c: char) -> int {
    if c == '[' {
        1
    } else if c == ']' {
        -1
    } else {
        0
    }
}

/// Signed running total of bracket deltas over the whole sequence.
pub open spec fn bracket_balance(s: Seq<char>) -> int
    decreases s.len(),
{
    if s.len() == 0 {
        0
    } else {
        bracket_balance(s.drop_last()) + bracket_delta(s.last())
    }
}

/// The bracket balance is the number of `[` minus the number of `]`.
pub proof fn lemma_balance_counts(s: Seq<char>)
    ensures
        bracket_balance(s) == count_char(s, '[') - count_char(s, ']'),
    decreases s.len(),
{
    if s.len() > 0 {
        lemma_balance_counts(s.drop_last());
    }
}

/// Every character of the filtered sequence is one of the eight
/// instruction symbols.
pub proof fn lemma_filter_ins_alphabet(s: Seq<char>)
    ensures
        forall|i: int|
            0 <= i < filter_ins(s).len() ==> is_instruction(#[trigger] filter_ins(s)[i]),
    decreases s.len(),
{
    if s.len() > 0 {
        lemma_filter_ins_alphabet(s.drop_last());
        assert forall|i: int|
            0 <= i < filter_ins(s).len() implies is_instruction(filter_ins(s)[i]) by {
            let rest = filter_ins(s.drop_last());
            if i < rest.len() {
                assert(filter_ins(s)[i] == rest[i]);
            }
        }
    }
}

/// The observable state of an execution engine: instruction sequence, tape
/// and the two pointers. The I/O handlers are not part of the state.
pub ghost struct State {
    pub ins: Seq<char>,
    pub mem: Seq<u8>,
    pub ins_ptr: int,
    pub mem_ptr: int,
}

impl State {
    /// The instruction pointer may sit anywhere up to and including the end
    /// of the sequence (the end signals completion); the memory pointer must
    /// address a tape cell.
    pub open spec fn wf(self) -> bool {
        0 <= self.ins_ptr <= self.ins.len() && 0 <= self.mem_ptr < self.mem.len()
    }
}

/// One increment with wraparound at 256.
pub open spec fn wrap_inc(b: u8) -> u8 {
    if b == 255 {
        0
    } else {
        (b + 1) as u8
    }
}

/// One decrement with wraparound at 0.
pub open spec fn wrap_dec(b: u8) -> u8 {
    if b == 0 {
        255
    } else {
        (b - 1) as u8
    }
}

/// Forward scan for the `[` instruction: starting at position `i` (the `[`
/// itself) with nesting counter `n`, the position one past the matching `]`,
/// or `None` when the scan runs off the end of the sequence.
pub open spec fn scan_fwd(ins: Seq<char>, i: int, n: int) -> Option<int>
    decreases ins.len() - i,
{
    if i < 0 || i >= ins.len() {
        None
    } else {
        let m = n + (if ins[i] == '[' { 1int } else { 0int }) - (if ins[i] == ']' { 1int } else { 0int });
        if m == 0 {
            Some(i + 1)
        } else {
            scan_fwd(ins, i + 1, m)
        }
    }
}

/// Backward scan for the `]` instruction: starting at position `i` (the `]`
/// itself) with nesting counter `n`, the position one past the matching `[`,
/// or `None` when the pointer would have to move below position 0 before the
/// counter closes. Position 0 itself is examined, so a match at the start of
/// the sequence succeeds.
pub open spec fn scan_back(ins: Seq<char>, i: int, n: int) -> Option<int>
    decreases i + 1,
{
    if i < 0 {
        None
    } else {
        let m = n + (if ins[i] == ']' { 1int } else { 0int }) - (if ins[i] == '[' { 1int } else { 0int });
        if m == 0 {
            Some(i + 1)
        } else {
            scan_back(ins, i - 1, m)
        }
    }
}

/// The one-step transition relation of the engine: executing one instruction
/// (or reporting completion) takes state `pre` to state `post` with result
/// `r`. Deterministic except for the `,` instruction, whose stored byte comes
/// from the input handler.
pub open spec fn step_rel(pre: State, post: State, r: Result<bool, Error>) -> bool {
    if pre.ins_ptr == pre.ins.len() {
        r == Ok::<bool, Error>(true) && post == pre
    } else {
        let c = pre.ins[pre.ins_ptr];
        let cell = pre.mem[pre.mem_ptr];
        if c == '>' {
            if pre.mem_ptr == pre.mem.len() - 1 {
                r == Err::<bool, Error>(Error::MemPtrOutOfBounds(1)) && post == pre
            } else {
                r == Ok::<bool, Error>(false) && post == (State {
                    mem_ptr: pre.mem_ptr + 1,
                    ins_ptr: pre.ins_ptr + 1,
                    ..pre
                })
            }
        } else if c == '<' {
            if pre.mem_ptr == 0 {
                r == Err::<bool, Error>(Error::MemPtrOutOfBounds(-1i32)) && post == pre
            } else {
                r == Ok::<bool, Error>(false) && post == (State {
                    mem_ptr: pre.mem_ptr - 1,
                    ins_ptr: pre.ins_ptr + 1,
                    ..pre
                })
            }
        } else if c == '+' {
            r == Ok::<bool, Error>(false) && post == (State {
                mem: pre.mem.update(pre.mem_ptr, wrap_inc(cell)),
                ins_ptr: pre.ins_ptr + 1,
                ..pre
            })
        } else if c == '-' {
            r == Ok::<bool, Error>(false) && post == (State {
                mem: pre.mem.update(pre.mem_ptr, wrap_dec(cell)),
                ins_ptr: pre.ins_ptr + 1,
                ..pre
            })
        } else if c == '.' {
            r == Ok::<bool, Error>(false) && post == (State { ins_ptr: pre.ins_ptr + 1, ..pre })
        } else if c == ',' {
            r == Ok::<bool, Error>(false) && (exists|b: u8|
                post == (State {
                    mem: #[trigger] pre.mem.update(pre.mem_ptr, b),
                    ins_ptr: pre.ins_ptr + 1,
                    ..pre
                }))
        } else if c == '[' {
            if cell != 0 {
                r == Ok::<bool, Error>(false) && post == (State { ins_ptr: pre.ins_ptr + 1, ..pre })
            } else {
                match scan_fwd(pre.ins, pre.ins_ptr, 0) {
                    Some(j) => r == Ok::<bool, Error>(false) && post == (State { ins_ptr: j, ..pre }),
                    None => r == Err::<bool, Error>(Error::InsPtrOutOfBounds(1)) && post == (State {
                        ins_ptr: pre.ins.len() as int,
                        ..pre
                    }),
                }
            }
        } else if c == ']' {
            if cell == 0 {
                r == Ok::<bool, Error>(false) && post == (State { ins_ptr: pre.ins_ptr + 1, ..pre })
            } else {
                match scan_back(pre.ins, pre.ins_ptr, 0) {
                    Some(j) => r == Ok::<bool, Error>(false) && post == (State { ins_ptr: j, ..pre }),
                    None => r == Err::<bool, Error>(Error::InsPtrOutOfBounds(-1i32)) && post == (State {
                        ins_ptr: 0,
                        ..pre
                    }),
                }
            }
        } else {
            r == Err::<bool, Error>(Error::InvalidInstruction) && post == pre
        }
    }
}

/// `post` is reachable from `pre` by exactly `n` successful, non-final steps.
pub open spec fn steps_to(pre: State, post: State, n: nat) -> bool
    decreases n,
{
    if n == 0 {
        post == pre
    } else {
        exists|mid: State|
            #[trigger] step_rel(pre, mid, Ok::<bool, Error>(false)) && steps_to(
                mid,
                post,
                (n - 1) as nat,
            )
    }
}

/// Every execution from `s` is finite: no chain of successful steps starting
/// at `s` is longer than `bound`. An execution that runs into an error or
/// reaches the end of the sequence within the bound satisfies this; only a
/// program that loops forever has no bound at all.
pub open spec fn halts_within(s: State, bound: nat) -> bool {
    forall|t: State, n: nat| #[trigger] steps_to(s, t, n) ==> n <= bound
}

/// A state whose instruction pointer sits at the end of the sequence takes
/// no successful step: it is reachable only from itself, in zero steps.
pub proof fn lemma_steps_to_from_end(a: State, b: State, n: nat)
    requires
        steps_to(a, b, n),
        a.ins_ptr == a.ins.len(),
    ensures
        b == a,
        n == 0,
    decreases n,
{
    if n > 0 {
        let mid = choose|mid: State|
            #[trigger] step_rel(a, mid, Ok::<bool, Error>(false)) && steps_to(
                mid,
                b,
                (n - 1) as nat,
            );
        assert(false);
    }
}

/// A program whose instruction pointer already sits at the end of the
/// sequence halts within zero steps: running it can only report completion
/// at once, leaving the tape untouched.
pub proof fn lemma_halts_at_end(s: State)
    requires
        s.ins_ptr == s.ins.len(),
    ensures
        halts_within(s, 0),
{
    assert forall|t: State, n: nat| #[trigger] steps_to(s, t, n) implies n <= 0 by {
        lemma_steps_to_from_end(s, t, n);
    }
}

/// A reachable state followed by one more successful step is reachable.
pub proof fn lemma_steps_to_extend(a: State, b: State, c: State, n: nat)
    requires
        steps_to(a, b, n),
        step_rel(b, c, Ok::<bool, Error>(false)),
    ensures
        steps_to(a, c, (n + 1) as nat),
    decreases n,
{
    if n == 0 {
        assert(steps_to(c, c, 0));
        assert(steps_to(a, c, 1));
    } else {
        let mid = choose|mid: State|
            #[trigger] step_rel(a, mid, Ok::<bool, Error>(false)) && steps_to(
                mid,
                b,
                (n - 1) as nat,
            );
        lemma_steps_to_extend(mid, b, c, (n - 1) as nat);
        assert(steps_to(a, c, (n + 1) as nat));
    }
}

} // verus!
