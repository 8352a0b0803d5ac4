//! The interpreter: a tree-walker over the IR, and the mathematical
//! semantics of the IR that the walker is proved against.
//!
//! The machine owns a 30,000-cell byte tape, zero-initialized, a data
//! pointer, an input buffer and an output buffer.  `Read` past the end of
//! the input stores 0 (this implementation's end-of-input sentinel).  A move
//! that would take the data pointer outside the tape halts the run with a
//! fault.  Runs are fuel-bounded: the fuel bounds how often any one loop may
//! be re-entered, and a run that needs more fuel says so instead of
//! diverging.

use vstd::prelude::*;

use crate::ast::lemma_spec_body_index;
use crate::ast::lemma_spec_body_len;
use crate::ast::clone_body;
use crate::ast::ASTNode;
use crate::ast::SpecNode;
use crate::ast::spec_body;
use crate::ast::drop_leading_loops;
use crate::ast::lemma_elision_drops_leading_loops;
use crate::ast::parse_plain;
use crate::ast::spec_parse;
use crate::ast::SpecParse;
use vstd::pervasive::VecAdditionalExecFns;

verus! {

/// Number of cells on the tape.
pub const TAPE_LEN: usize = 30000;

/// The mathematical state of the machine: the tape, the data pointer, the
/// input still to be read, and the output written so far.
pub struct MState {
    pub tape: Seq<u8>,
    pub ptr: int,
    pub input: Seq<u8>,
    pub output: Seq<u8>,
}

/// The machine state at the start of a run on `input`.
pub open spec fn init_state(input: Seq<u8>) -> MState {
    MState {
        tape: Seq::new(TAPE_LEN as nat, |i: int| 0u8),
        ptr: 0,
        input: input,
        output: Seq::empty(),
    }
}

/// How a fuel-bounded run ends: normally, by stepping outside the tape, or
/// by running out of fuel.
pub enum SpecRun {
    Done(MState),
    Fault,
    OutOfFuel,
}

/// Run one node.  `fuel` bounds how often a loop may be re-entered; it is
/// spent only on loop iterations, so running a loop-free body never runs
/// out of fuel.
pub open spec fn run_node(n: SpecNode, st: MState, fuel: nat) -> SpecRun
    decreases fuel, n, 0int,
{
    match n {
        SpecNode::Incr(k) => if 0 <= st.ptr < st.tape.len() {
            SpecRun::Done(
                MState {
                    tape: st.tape.update(
                        st.ptr,
                        vstd::wrapping::u8_specs::wrapping_add(st.tape[st.ptr], k),
                    ),
                    ..st
                },
            )
        } else {
            SpecRun::Fault
        },
        SpecNode::Decr(k) => if 0 <= st.ptr < st.tape.len() {
            SpecRun::Done(
                MState {
                    tape: st.tape.update(
                        st.ptr,
                        vstd::wrapping::u8_specs::wrapping_sub(st.tape[st.ptr], k),
                    ),
                    ..st
                },
            )
        } else {
            SpecRun::Fault
        },
        SpecNode::Next(k) => if st.ptr + k < st.tape.len() {
            SpecRun::Done(MState { ptr: st.ptr + k, ..st })
        } else {
            SpecRun::Fault
        },
        SpecNode::Prev(k) => if st.ptr - k >= 0 {
            SpecRun::Done(MState { ptr: st.ptr - k, ..st })
        } else {
            SpecRun::Fault
        },
        SpecNode::Print => if 0 <= st.ptr < st.tape.len() {
            SpecRun::Done(MState { output: st.output.push(st.tape[st.ptr]), ..st })
        } else {
            SpecRun::Fault
        },
        SpecNode::Read => if 0 <= st.ptr < st.tape.len() {
            if st.input.len() > 0 {
                SpecRun::Done(
                    MState {
                        tape: st.tape.update(st.ptr, st.input[0]),
                        input: st.input.subrange(1, st.input.len() as int),
                        ..st
                    },
                )
            } else {
                SpecRun::Done(MState { tape: st.tape.update(st.ptr, 0u8), ..st })
            }
        } else {
            SpecRun::Fault
        },
        SpecNode::Loop(body) => if !(0 <= st.ptr < st.tape.len()) {
            SpecRun::Fault
        } else if st.tape[st.ptr] == 0 {
            SpecRun::Done(st)
        } else if fuel == 0 {
            SpecRun::OutOfFuel
        } else {
            match run_from(body, 0, st, (fuel - 1) as nat) {
                SpecRun::Done(st2) => run_node(n, st2, (fuel - 1) as nat),
                r => r,
            }
        },
    }
}

/// Run the nodes of `b` from position `i` on, in order.
pub open spec fn run_from(b: Seq<SpecNode>, i: int, st: MState, fuel: nat) -> SpecRun
    decreases fuel, b, b.len() - i,
{
    if i < 0 || i >= b.len() {
        SpecRun::Done(st)
    } else {
        match run_node(b[i], st, fuel) {
            SpecRun::Done(st2) => run_from(b, i + 1, st2, fuel),
            r => r,
        }
    }
}

/// Run a whole program on `input` from the start state.
pub open spec fn run_program(b: Seq<SpecNode>, input: Seq<u8>, fuel: nat) -> SpecRun {
    run_from(b, 0, init_state(input), fuel)
}

/// How an interpreter run ended.
#[derive(Debug, Clone, Copy, PartialEq, Eq, Structural)]
pub enum RunStatus {
    /// The whole program ran to completion.
    Done,
    /// The program moved the data pointer outside the tape.
    Fault,
    /// The fuel bound was hit; a longer run needs more fuel.
    OutOfFuel,
}

/// The concrete machine: tape, data pointer, input cursor and output.
pub struct Machine {
    pub tape: Vec<u8>,
    pub ptr: usize,
    pub input: Vec<u8>,
    pub in_pos: usize,
    pub output: Vec<u8>,
}

impl Machine {
    /// The machine is intact: full-length tape, pointer on the tape, input
    /// cursor inside the input.
    pub open spec fn wf(self) -> bool {
        &&& self.tape@.len() == TAPE_LEN
        &&& self.ptr < TAPE_LEN
        &&& self.in_pos <= self.input@.len()
    }

    /// The mathematical state this machine stands for.
    pub open spec fn mstate(self) -> MState {
        MState {
            tape: self.tape@,
            ptr: self.ptr as int,
            input: self.input@.subrange(self.in_pos as int, self.input@.len() as int),
            output: self.output@,
        }
    }

    /// A fresh machine: zeroed tape, pointer at the first cell, the given
    /// input, no output.
    pub fn new(input: Vec<u8>) -> (r: Machine)
        ensures
            r.wf(),
            r.mstate() == init_state(input@),
    {
        let mut tape: Vec<u8> = Vec::new();
        while tape.len() < TAPE_LEN
            invariant
                tape@.len() <= TAPE_LEN,
                forall|j: int| 0 <= j < tape@.len() ==> tape@[j] == 0u8,
            decreases TAPE_LEN - tape@.len(),
        {
            tape.push(0u8);
        }
        let r = Machine { tape, ptr: 0, input, in_pos: 0, output: Vec::new() };
        proof {
            assert(r.mstate().tape =~= init_state(r.input@).tape);
            assert(r.mstate().input =~= init_state(r.input@).input);
            assert(r.mstate().output =~= init_state(r.input@).output);
        }
        r
    }
}

/// Run one node against the machine, mirroring [`run_node`] exactly.
#[verifier::loop_isolation(false)]
fn exec_node(node: &ASTNode, m: &mut Machine, fuel: u64) -> (r: RunStatus)
    requires
        old(m).wf(),
    ensures
        final(m).wf(),
        r is Done ==> run_node(node.spec_node(), old(m).mstate(), fuel as nat) == SpecRun::Done(
            final(m).mstate(),
        ),
        r is Fault ==> run_node(node.spec_node(), old(m).mstate(), fuel as nat) == SpecRun::Fault,
        r is OutOfFuel ==> run_node(node.spec_node(), old(m).mstate(), fuel as nat)
            == SpecRun::OutOfFuel,
    decreases *node,
{
    broadcast use lemma_spec_body_len, lemma_spec_body_index;

    match node {
        ASTNode::Incr(k) => {
            let v = m.tape[m.ptr];
            m.tape.set(m.ptr, v.wrapping_add(*k));
            RunStatus::Done
        },
        ASTNode::Decr(k) => {
            let v = m.tape[m.ptr];
            m.tape.set(m.ptr, v.wrapping_sub(*k));
            RunStatus::Done
        },
        ASTNode::Next(k) => {
            if *k <= TAPE_LEN - 1 - m.ptr {
                m.ptr = m.ptr + *k;
                RunStatus::Done
            } else {
                RunStatus::Fault
            }
        },
        ASTNode::Prev(k) => {
            if *k <= m.ptr {
                m.ptr = m.ptr - *k;
                RunStatus::Done
            } else {
                RunStatus::Fault
            }
        },
        ASTNode::Print => {
            let v = m.tape[m.ptr];
            m.output.push(v);
            RunStatus::Done
        },
        ASTNode::Read => {
            let ghost pre = m.mstate();
            if m.in_pos < m.input.len() {
                let b = m.input[m.in_pos];
                m.in_pos = m.in_pos + 1;
                m.tape.set(m.ptr, b);
                proof {
                    assert(m.mstate().input =~= pre.input.subrange(1, pre.input.len() as int));
                }
            } else {
                m.tape.set(m.ptr, 0u8);
            }
            RunStatus::Done
        },
        ASTNode::Loop(body) => {
            let ghost lnode = node.spec_node();
            let ghost st0 = m.mstate();
            let mut k: u64 = fuel;
            proof {
                assert(decreases_to!(*node => (*node)->Loop_0));
                assert(decreases_to!(*body => body@));
            }
            loop
                invariant
                    m.wf(),
                    run_node(lnode, st0, fuel as nat) == run_node(lnode, m.mstate(), k as nat),
                decreases k,
            {
                if m.tape[m.ptr] == 0 {
                    return RunStatus::Done;
                }
                if k == 0 {
                    return RunStatus::OutOfFuel;
                }
                k = k - 1;
                let r = exec_body(body, m, k);
                match r {
                    RunStatus::Done => {},
                    _ => {
                        return r;
                    },
                }
            }
        },
    }
}

/// Run a body front to back against the machine, mirroring [`run_from`].
#[verifier::loop_isolation(false)]
fn exec_body(body: &Vec<ASTNode>, m: &mut Machine, fuel: u64) -> (r: RunStatus)
    requires
        old(m).wf(),
    ensures
        final(m).wf(),
        r is Done ==> run_from(spec_body(body@), 0, old(m).mstate(), fuel as nat) == SpecRun::Done(
            final(m).mstate(),
        ),
        r is Fault ==> run_from(spec_body(body@), 0, old(m).mstate(), fuel as nat)
            == SpecRun::Fault,
        r is OutOfFuel ==> run_from(spec_body(body@), 0, old(m).mstate(), fuel as nat)
            == SpecRun::OutOfFuel,
    decreases body@,
{
    broadcast use lemma_spec_body_len, lemma_spec_body_index;

    let ghost sb = spec_body(body@);
    let ghost st0 = m.mstate();
    let mut i: usize = 0;
    while i < body.len()
        invariant
            m.wf(),
            i <= body@.len(),
            run_from(sb, 0, st0, fuel as nat) == run_from(sb, i as int, m.mstate(), fuel as nat),
        decreases body@.len() - i,
    {
        proof {
            assert(decreases_to!(body@ => body@[i as int]));
        }
        let r = exec_node(&body[i], m, fuel);
        match r {
            RunStatus::Done => {},
            _ => {
                return r;
            },
        }
        i = i + 1;
    }
    RunStatus::Done
}

/// The interpreter: the program it walks and the machine it drives.
pub struct Fucker {
    pub program: Vec<ASTNode>,
    pub machine: Machine,
}

impl Fucker {
    /// A fresh interpreter for `program`, reading from `input`.
    pub fn new(program: &Vec<ASTNode>, input: Vec<u8>) -> (r: Fucker)
        ensures
            r.machine.wf(),
            spec_body(r.program@) == spec_body(program@),
            r.machine.mstate() == init_state(input@),
    {
        Fucker { program: clone_body(program), machine: Machine::new(input) }
    }

    /// Run the whole program, spending at most `fuel` re-entries per loop.
    /// The result and the machine afterwards are exactly what the
    /// mathematical semantics [`run_program`] yields on the old state.
    pub fn run(&mut self, fuel: u64) -> (r: RunStatus)
        requires
            old(self).machine.wf(),
        ensures
            final(self).machine.wf(),
            final(self).program@ == old(self).program@,
            r is Done ==> run_from(
                spec_body(final(self).program@),
                0,
                old(self).machine.mstate(),
                fuel as nat,
            ) == SpecRun::Done(final(self).machine.mstate()),
            r is Fault ==> run_from(
                spec_body(final(self).program@),
                0,
                old(self).machine.mstate(),
                fuel as nat,
            ) == SpecRun::Fault,
            r is OutOfFuel ==> run_from(
                spec_body(final(self).program@),
                0,
                old(self).machine.mstate(),
                fuel as nat,
            ) == SpecRun::OutOfFuel,
    {
        exec_body(&self.program, &mut self.machine, fuel)
    }
}

/// A loop standing at a cell that holds zero is never entered: running it
/// changes nothing, whatever the fuel.
pub proof fn lemma_zero_cell_loop_skipped(body: Seq<SpecNode>, st: MState, fuel: nat)
    requires
        0 <= st.ptr < st.tape.len(),
        st.tape[st.ptr] == 0,
    ensures
        run_node(SpecNode::Loop(body), st, fuel) == SpecRun::Done(st),
{
}

/// Helper: running `seq![x] + t` from position `i + 1` is running `t` from
/// position `i`.
proof fn lemma_run_from_tail(x: SpecNode, t: Seq<SpecNode>, i: int, st: MState, fuel: nat)
    requires
        0 <= i <= t.len(),
    ensures
        run_from(seq![x] + t, i + 1, st, fuel) == run_from(t, i, st, fuel),
    decreases t.len() - i,
{
    let s = seq![x] + t;
    if i < t.len() {
        assert(s[i + 1] == t[i]);
        match run_node(t[i], st, fuel) {
            SpecRun::Done(st2) => lemma_run_from_tail(x, t, i + 1, st2, fuel),
            _ => {},
        }
    }
}

/// Empty-prefix loop elision is sound: when the current cell holds zero —
/// as every cell does before any non-loop instruction has run — a body that
/// starts with a loop behaves exactly like the body without it.
pub proof fn lemma_elide_leading_loop(
    body: Seq<SpecNode>,
    rest: Seq<SpecNode>,
    st: MState,
    fuel: nat,
)
    requires
        0 <= st.ptr < st.tape.len(),
        st.tape[st.ptr] == 0,
    ensures
        run_from(seq![SpecNode::Loop(body)] + rest, 0, st, fuel) == run_from(rest, 0, st, fuel),
{
    let s = seq![SpecNode::Loop(body)] + rest;
    assert(s[0] == SpecNode::Loop(body));
    lemma_zero_cell_loop_skipped(body, st, fuel);
    lemma_run_from_tail(SpecNode::Loop(body), rest, 0, st, fuel);
}

/// Empty-prefix loop elision is sound for a whole body: while the current
/// cell holds zero — as it does before any non-loop instruction has run —
/// every loop standing before the first non-loop instruction is skipped, so
/// the body behaves exactly like the body without them.
pub proof fn lemma_drop_leading_loops_sound(b: Seq<SpecNode>, st: MState, fuel: nat)
    requires
        0 <= st.ptr < st.tape.len(),
        st.tape[st.ptr] == 0,
    ensures
        run_from(b, 0, st, fuel) == run_from(drop_leading_loops(b), 0, st, fuel),
    decreases b.len(),
{
    if b.len() > 0 && b[0] is Loop {
        assert(b =~= seq![SpecNode::Loop(b[0]->Loop_0)] + b.drop_first());
        lemma_elide_leading_loop(b[0]->Loop_0, b.drop_first(), st, fuel);
        lemma_drop_leading_loops_sound(b.drop_first(), st, fuel);
    }
}

/// Empty-prefix loop elision is sound end to end: a source parses with the
/// elision exactly when it parses without it, and on every input and fuel
/// the two parsed programs run from the start state to the very same
/// outcome.
pub proof fn lemma_elision_sound(s: Seq<char>, input: Seq<u8>, fuel: nat)
    ensures
        spec_parse(s) is Parsed <==> parse_plain(s) is Parsed,
        spec_parse(s) is Parsed ==> run_from(spec_parse(s)->Parsed_0, 0, init_state(input), fuel)
            == run_from(parse_plain(s)->Parsed_0, 0, init_state(input), fuel),
{
    lemma_elision_drops_leading_loops(s);
    if spec_parse(s) is Parsed {
        let bp = parse_plain(s)->Parsed_0;
        let st = init_state(input);
        assert(st.tape[0] == 0);
        lemma_drop_leading_loops_sound(bp, st, fuel);
    }
}

} // verus!


