//! The compiler: walks the IR, emits code for each node, inlines small
//! loops ahead of time and defers large ones behind a promise table until
//! first entry.
//!
//! Compilation here is pure byte emission: the host that installs the bytes
//! in executable memory, runs them and serves the callback stands outside
//! this crate.  The addresses of the host's one-byte print and read
//! routines are taken as plain values and embedded at the call sites.

use vstd::prelude::*;

use crate::ast::lemma_spec_body_index;
use crate::ast::lemma_spec_body_len;
use crate::ast::clone_body;
use crate::ast::ASTNode;
use crate::ast::SpecNode;
use crate::ast::spec_body;
use crate::code_gen;
use crate::code_gen::aot_loop_bytes;
use crate::code_gen::decr_bytes;
use crate::code_gen::incr_bytes;
use crate::code_gen::jit_loop_bytes;
use crate::code_gen::next_bytes;
use crate::code_gen::prev_bytes;
use crate::code_gen::print_bytes;
use crate::code_gen::read_bytes;
use crate::code_gen::wrapper_bytes;
use crate::code_gen::MAX_LOOP_BODY;
use vstd::pervasive::VecAdditionalExecFns;

verus! {

broadcast use crate::code_gen::lemma_le8_len, crate::code_gen::lemma_le4_len, crate::code_gen::lemma_rel32_len;

/// A loop whose body holds more nodes than this is deferred rather than
/// inlined; the value balances code-size bloat from inlining against
/// trampoline overhead for small loops.
pub const DEFER_THRESHOLD: usize = 22;

/// Index of a promise in its owning target's promise table.
pub type JITPromiseID = usize;

/// The code and the deferred loop bodies that compiling `b[i..]` emits.
/// `pf` and `rf` are the print and read routine addresses; `next_id` is the
/// promise id the first newly deferred body will receive.
pub open spec fn body_code(
    b: Seq<SpecNode>,
    i: int,
    pf: u64,
    rf: u64,
    next_id: nat,
) -> (Seq<u8>, Seq<Seq<SpecNode>>)
    decreases b, b.len() - i,
{
    if i < 0 || i >= b.len() {
        (Seq::empty(), Seq::empty())
    } else {
        let (c1, d1) = node_code(b[i], pf, rf, next_id);
        let (c2, d2) = body_code(b, i + 1, pf, rf, next_id + d1.len());
        (c1 + c2, d1 + d2)
    }
}

/// The code and the deferred loop bodies that compiling one node emits.
pub open spec fn node_code(n: SpecNode, pf: u64, rf: u64, next_id: nat) -> (
    Seq<u8>,
    Seq<Seq<SpecNode>>,
)
    decreases n, 0int,
{
    match n {
        SpecNode::Incr(k) => (incr_bytes(k), Seq::empty()),
        SpecNode::Decr(k) => (decr_bytes(k), Seq::empty()),
        SpecNode::Next(k) => (next_bytes(k), Seq::empty()),
        SpecNode::Prev(k) => (prev_bytes(k), Seq::empty()),
        SpecNode::Print => (print_bytes(pf), Seq::empty()),
        SpecNode::Read => (read_bytes(rf), Seq::empty()),
        SpecNode::Loop(b) => if b.len() > DEFER_THRESHOLD {
            (jit_loop_bytes(next_id as usize), seq![b])
        } else {
            let (cb, db) = body_code(b, 0, pf, rf, next_id);
            (aot_loop_bytes(cb), db)
        },
    }
}

/// A body all of whose inline loops emit jump displacements that fit.
/// Deferred bodies are not constrained here: whether they fit is checked
/// when their fragment is compiled on first entry.
pub open spec fn body_fits(b: Seq<SpecNode>, i: int, pf: u64, rf: u64) -> bool
    decreases b, b.len() - i,
{
    if i < 0 || i >= b.len() {
        true
    } else {
        node_fits(b[i], pf, rf) && body_fits(b, i + 1, pf, rf)
    }
}

/// One node's inline loops fit.
pub open spec fn node_fits(n: SpecNode, pf: u64, rf: u64) -> bool
    decreases n, 0int,
{
    match n {
        SpecNode::Loop(b) => if b.len() > DEFER_THRESHOLD {
            true
        } else {
            body_fits(b, 0, pf, rf) && body_code(b, 0, pf, rf, 0).0.len() <= MAX_LOOP_BODY
        },
        _ => true,
    }
}

/// A loop body can be wrapped in a while-nonzero test: its own inline loops
/// fit and its compiled size leaves room for the surrounding jumps.
pub open spec fn loop_fits(b: Seq<SpecNode>, pf: u64, rf: u64) -> bool {
    body_fits(b, 0, pf, rf) && body_code(b, 0, pf, rf, 0).0.len() <= MAX_LOOP_BODY
}

/// What a deferred body compiles to on first entry: the body wrapped in its
/// while-nonzero test, then in the entry prologue and epilogue, with a fresh
/// promise table for its own deferred loops.
pub open spec fn fragment_code(b: Seq<SpecNode>, pf: u64, rf: u64) -> (Seq<u8>, Seq<Seq<SpecNode>>) {
    let (c, ds) = body_code(b, 0, pf, rf, 0);
    (wrapper_bytes(aot_loop_bytes(c)), ds)
}

/// The emitted code's length and the deferred bodies do not depend on the
/// promise numbering: only the ids embedded in the trampoline calls do.  A
/// deferred body therefore compiles to the same fragment whenever and
/// wherever it is compiled — the heart of deferred-compile idempotence.
pub proof fn lemma_code_ids(b: Seq<SpecNode>, i: int, pf: u64, rf: u64, id1: nat, id2: nat)
    ensures
        body_code(b, i, pf, rf, id1).0.len() == body_code(b, i, pf, rf, id2).0.len(),
        body_code(b, i, pf, rf, id1).1 == body_code(b, i, pf, rf, id2).1,
    decreases b, b.len() - i,
{
    if 0 <= i < b.len() {
        lemma_node_code_ids(b[i], pf, rf, id1, id2);
        let d1 = node_code(b[i], pf, rf, id1).1;
        let d2 = node_code(b[i], pf, rf, id2).1;
        lemma_code_ids(b, i + 1, pf, rf, id1 + d1.len(), id2 + d2.len());
    }
}

/// One node's code length and deferred bodies do not depend on the promise
/// numbering.
pub proof fn lemma_node_code_ids(n: SpecNode, pf: u64, rf: u64, id1: nat, id2: nat)
    ensures
        node_code(n, pf, rf, id1).0.len() == node_code(n, pf, rf, id2).0.len(),
        node_code(n, pf, rf, id1).1 == node_code(n, pf, rf, id2).1,
    decreases n, 0int,
{
    match n {
        SpecNode::Loop(b) => {
            if b.len() <= DEFER_THRESHOLD {
                lemma_code_ids(b, 0, pf, rf, id1, id2);
            }
        },
        _ => {},
    }
}

/// Holds IR for later compilation, or the result of compiling it.
pub enum JITPromise {
    /// The loop body has not been compiled yet; the IR is retained.
    Deferred(Vec<ASTNode>),
    /// The compiled fragment, with its own code and promise table.
    Compiled(JITTarget),
}

/// Container for emitted code and the promise table it calls into.
pub struct JITTarget {
    /// The emitted code, ready to be installed in executable memory.
    pub bytes: Vec<u8>,
    /// The promise table: one entry per deferred loop, in emission order.
    pub loops: Vec<JITPromise>,
    /// Address of the host routine that prints one byte.
    pub print_fn: u64,
    /// Address of the host routine that reads one byte.
    pub read_fn: u64,
}

/// The promise table entries from `from` on are all deferred, and hold
/// exactly the bodies of `ds`.
pub open spec fn promises_deferred(loops: Seq<JITPromise>, from: int, ds: Seq<Seq<SpecNode>>) -> bool {
    &&& loops.len() == from + ds.len()
    &&& forall|j: int|
        0 <= j < ds.len() ==> ((#[trigger] loops[from + j]) matches JITPromise::Deferred(b)
            && spec_body(b@) == ds[j])
}

/// The textual error for a loop whose compiled body is too large to jump
/// around.
pub open spec fn too_large_msg() -> Seq<char> {
    "Loop body too large to JIT compile"@
}

impl JITTarget {
    /// Compile a whole program: emit code for the top-level body, register
    /// a deferred promise for each large loop, and wrap the code in the
    /// entry prologue and epilogue.  `print_fn` and `read_fn` are the
    /// addresses of the host's one-byte print and read routines.
    ///
    /// Succeeds exactly when every loop chosen for inlining fits; the
    /// resulting code and promise table are exactly what [`body_code`]
    /// describes.
    pub fn new(nodes: &Vec<ASTNode>, print_fn: u64, read_fn: u64) -> (r: Result<JITTarget, String>)
        ensures
            ({
                let (code, ds) = body_code(spec_body(nodes@), 0, print_fn, read_fn, 0);
                match r {
                    Ok(t) => body_fits(spec_body(nodes@), 0, print_fn, read_fn) && t.bytes@
                        == wrapper_bytes(code) && promises_deferred(t.loops@, 0, ds) && t.print_fn
                        == print_fn && t.read_fn == read_fn,
                    Err(m) => !body_fits(spec_body(nodes@), 0, print_fn, read_fn) && m@
                        == too_large_msg(),
                }
            }),
    {
        let mut loops: Vec<JITPromise> = Vec::new();
        match Self::shallow_compile(nodes, &mut loops, print_fn, read_fn) {
            Ok(body) => {
                let mut bytes: Vec<u8> = Vec::new();
                code_gen::wrapper(&mut bytes, body);
                Ok(JITTarget { bytes, loops, print_fn, read_fn })
            },
            Err(m) => Err(m),
        }
    }

    /// Compile a deferred loop body into a fragment of its own: the body
    /// wrapped in its while-nonzero test and the entry prologue/epilogue,
    /// with a fresh promise table.
    fn new_fragment(nodes: &Vec<ASTNode>, print_fn: u64, read_fn: u64) -> (r: Result<
        JITTarget,
        String,
    >)
        ensures
            ({
                let (code, ds) = fragment_code(spec_body(nodes@), print_fn, read_fn);
                match r {
                    Ok(t) => loop_fits(spec_body(nodes@), print_fn, read_fn) && t.bytes@ == code
                        && promises_deferred(t.loops@, 0, ds) && t.print_fn == print_fn && t.read_fn
                        == read_fn,
                    Err(m) => !loop_fits(spec_body(nodes@), print_fn, read_fn) && m@
                        == too_large_msg(),
                }
            }),
    {
        let mut loops: Vec<JITPromise> = Vec::new();
        match Self::compile_loop(nodes, &mut loops, print_fn, read_fn) {
            Ok(body) => {
                let mut bytes: Vec<u8> = Vec::new();
                code_gen::wrapper(&mut bytes, body);
                Ok(JITTarget { bytes, loops, print_fn, read_fn })
            },
            Err(m) => Err(m),
        }
    }

    /// Convert a body of IR nodes into a sequence of emitted bytes,
    /// appending a promise to `loops` for every loop it defers.
    #[verifier::loop_isolation(false)]
    fn shallow_compile(
        nodes: &Vec<ASTNode>,
        loops: &mut Vec<JITPromise>,
        pf: u64,
        rf: u64,
    ) -> (r: Result<Vec<u8>, String>)
        ensures
            ({
                let (code, ds) = body_code(spec_body(nodes@), 0, pf, rf, old(loops)@.len() as nat);
                match r {
                    Ok(b) => body_fits(spec_body(nodes@), 0, pf, rf) && b@ == code && (forall|
                        j: int,
                    |
                        0 <= j < old(loops)@.len() ==> final(loops)@[j] == old(loops)@[j])
                        && promises_deferred(final(loops)@, old(loops)@.len() as int, ds),
                    Err(m) => !body_fits(spec_body(nodes@), 0, pf, rf) && m@ == too_large_msg(),
                }
            }),
        decreases nodes@, 0int,
    {
        broadcast use lemma_spec_body_len, lemma_spec_body_index;

        let ghost sb = spec_body(nodes@);
        let ghost base = loops@.len() as int;
        let ghost full = body_code(sb, 0, pf, rf, base as nat);
        let mut bytes: Vec<u8> = Vec::new();
        let mut i: usize = 0;
        while i < nodes.len()
            invariant
                i <= nodes@.len(),
                base <= loops@.len(),
                forall|j: int| 0 <= j < base ==> loops@[j] == old(loops)@[j],
                forall|j: int| base <= j < loops@.len() ==> (#[trigger] loops@[j]) is Deferred,
                body_fits(sb, 0, pf, rf) <==> body_fits(sb, i as int, pf, rf),
                full.0 == bytes@ + body_code(sb, i as int, pf, rf, loops@.len() as nat).0,
                full.1 == deferred_views(loops@, base) + body_code(
                    sb,
                    i as int,
                    pf,
                    rf,
                    loops@.len() as nat,
                ).1,
            decreases nodes@.len() - i,
        {
            let ghost pre_bytes = bytes@;
            let ghost pre_loops = loops@;
            let ghost nid = loops@.len() as nat;
            let ghost nc = node_code(sb[i as int], pf, rf, nid);
            let ghost rest = body_code(sb, i as int + 1, pf, rf, nid + nc.1.len());
            proof {
                assert(body_code(sb, i as int, pf, rf, nid).0 == nc.0 + rest.0);
                assert(body_code(sb, i as int, pf, rf, nid).1 == nc.1 + rest.1);
                assert(decreases_to!(nodes@ => nodes@[i as int]));
            }
            match Self::compile_node(&nodes[i], &mut bytes, loops, pf, rf) {
                Ok(u) => u,
                Err(m) => {
                    proof {
                        assert(!body_fits(sb, i as int, pf, rf));
                    }
                    return Err(m);
                },
            };
            proof {
                vstd::seq_lib::lemma_concat_associative(pre_bytes, nc.0, rest.0);
                assert(full.0 == bytes@ + rest.0);
                assert forall|j: int| base <= j < loops@.len() implies (#[trigger] loops@[j])
                    is Deferred by {
                    if j >= pre_loops.len() {
                        let k = j - pre_loops.len();
                        assert(loops@[pre_loops.len() as int + k] is Deferred);
                    }
                }
                assert(deferred_views(loops@, base) =~= deferred_views(pre_loops, base) + nc.1) by {
                    assert forall|j: int| 0 <= j < loops@.len() - base implies deferred_views(
                        loops@,
                        base,
                    )[j] == (deferred_views(pre_loops, base) + nc.1)[j] by {
                        if j < pre_loops.len() - base {
                            assert(loops@[base + j] == pre_loops[base + j]);
                        } else {
                            let k = j - (pre_loops.len() - base);
                            assert(loops@[pre_loops.len() as int + k] is Deferred);
                            assert(spec_body(
                                loops@[pre_loops.len() as int + k]->Deferred_0@,
                            ) == nc.1[k]);
                            assert(base + j == pre_loops.len() + k);
                        }
                    }
                }
                vstd::seq_lib::lemma_concat_associative(
                    deferred_views(pre_loops, base),
                    nc.1,
                    rest.1,
                );
                assert(full.1 == deferred_views(loops@, base) + rest.1);
            }
            i = i + 1;
        }
        proof {
            assert(full.0 =~= bytes@);
            assert(full.1 =~= deferred_views(loops@, base));
            assert(promises_deferred(loops@, base, full.1));
        }
        Ok(bytes)
    }

    /// Emit the code for one node: a fixed template for the six single-step
    /// operations, an inlined while-nonzero loop for a small `Loop`, a
    /// deferred promise and its trampoline for a large one.
    fn compile_node(
        node: &ASTNode,
        bytes: &mut Vec<u8>,
        loops: &mut Vec<JITPromise>,
        pf: u64,
        rf: u64,
    ) -> (r: Result<(), String>)
        ensures
            ({
                let (code, ds) = node_code(node.spec_node(), pf, rf, old(loops)@.len() as nat);
                match r {
                    Ok(_) => node_fits(node.spec_node(), pf, rf) && final(bytes)@ == old(bytes)@
                        + code && (forall|j: int|
                        0 <= j < old(loops)@.len() ==> final(loops)@[j] == old(loops)@[j])
                        && promises_deferred(final(loops)@, old(loops)@.len() as int, ds),
                    Err(m) => !node_fits(node.spec_node(), pf, rf) && m@ == too_large_msg(),
                }
            }),
        decreases *node, 2int,
    {
        broadcast use lemma_spec_body_len, lemma_spec_body_index;

        let ghost base = loops@.len() as int;
        match node {
            ASTNode::Incr(n) => code_gen::incr(bytes, *n),
            ASTNode::Decr(n) => code_gen::decr(bytes, *n),
            ASTNode::Next(n) => code_gen::next(bytes, *n),
            ASTNode::Prev(n) => code_gen::prev(bytes, *n),
            ASTNode::Print => code_gen::print(bytes, pf),
            ASTNode::Read => code_gen::read(bytes, rf),
            ASTNode::Loop(inner) => {
                proof {
                    assert(decreases_to!(*node => (*node)->Loop_0));
                    assert(decreases_to!(*inner => inner@));
                }
                if inner.len() > DEFER_THRESHOLD {
                    let mut lb = Self::defer_loop(inner, loops);
                    bytes.append(&mut lb);
                    proof {
                        assert(promises_deferred(
                            loops@,
                            base,
                            node_code(node.spec_node(), pf, rf, base as nat).1,
                        ));
                    }
                } else {
                    match Self::compile_loop(inner, loops, pf, rf) {
                        Ok(mut lb) => {
                            bytes.append(&mut lb);
                        },
                        Err(m) => {
                            return Err(m);
                        },
                    }
                }
            },
        }
        proof {
            assert(deferred_views(loops@, base) =~= node_code(
                node.spec_node(),
                pf,
                rf,
                base as nat,
            ).1);
        }
        Ok(())
    }

    /// Perform ahead-of-time compilation on a loop: compile the body and
    /// wrap it in the while-nonzero test.  Fails when the compiled body is
    /// too large for the surrounding jump displacements.
    #[verifier::loop_isolation(false)]
    fn compile_loop(
        nodes: &Vec<ASTNode>,
        loops: &mut Vec<JITPromise>,
        pf: u64,
        rf: u64,
    ) -> (r: Result<Vec<u8>, String>)
        ensures
            ({
                let (code, ds) = body_code(spec_body(nodes@), 0, pf, rf, old(loops)@.len() as nat);
                match r {
                    Ok(b) => loop_fits(spec_body(nodes@), pf, rf) && b@ == aot_loop_bytes(code) && (
                    forall|j: int|
                        0 <= j < old(loops)@.len() ==> final(loops)@[j] == old(loops)@[j])
                        && promises_deferred(final(loops)@, old(loops)@.len() as int, ds),
                    Err(m) => !loop_fits(spec_body(nodes@), pf, rf) && m@ == too_large_msg(),
                }
            }),
        decreases nodes@, 1int,
    {
        proof {
            lemma_code_ids(spec_body(nodes@), 0, pf, rf, loops@.len() as nat, 0);
        }
        match Self::shallow_compile(nodes, loops, pf, rf) {
            Ok(body) => {
                if body.len() > MAX_LOOP_BODY {
                    return Err(String::from_str("Loop body too large to JIT compile"));
                }
                let mut bytes: Vec<u8> = Vec::new();
                code_gen::aot_loop(&mut bytes, body);
                Ok(bytes)
            },
            Err(m) => Err(m),
        }
    }

    /// Register a deferred promise for a loop body and emit the trampoline
    /// that will call back into the host for it.
    fn defer_loop(nodes: &Vec<ASTNode>, loops: &mut Vec<JITPromise>) -> (r: Vec<u8>)
        ensures
            r@ == jit_loop_bytes(old(loops)@.len() as usize),
            final(loops)@.len() == old(loops)@.len() + 1,
            forall|j: int| 0 <= j < old(loops)@.len() ==> final(loops)@[j] == old(loops)@[j],
            final(loops)@.last() matches JITPromise::Deferred(b) && spec_body(b@) == spec_body(
                nodes@,
            ),
    {
        let id = loops.len();
        loops.push(JITPromise::Deferred(clone_body(nodes)));
        let mut bytes: Vec<u8> = Vec::new();
        code_gen::jit_loop(&mut bytes, id);
        proof {
            assert(bytes@ =~= Seq::<u8>::empty() + jit_loop_bytes(id));
        }
        bytes
    }

    /// The compile half of the host callback: make sure promise `id` holds
    /// compiled code.  On first use the deferred body is compiled into a
    /// fragment — the same fragment, byte for byte, that compiling the body
    /// at program start would have produced; afterwards the promise is left
    /// exactly as it is.  A promise moves from deferred to compiled at most
    /// once and never back.
    pub fn compile_promise(&mut self, id: JITPromiseID) -> (r: Result<(), String>)
        requires
            id < old(self).loops@.len(),
        ensures
            final(self).bytes@ == old(self).bytes@,
            final(self).print_fn == old(self).print_fn,
            final(self).read_fn == old(self).read_fn,
            final(self).loops@.len() == old(self).loops@.len(),
            forall|j: int|
                0 <= j < old(self).loops@.len() && j != id ==> final(self).loops@[j] == old(
                    self,
                ).loops@[j],
            old(self).loops@[id as int] is Compiled ==> r is Ok && final(self).loops@[id as int]
                == old(self).loops@[id as int],
            ({
                let p = old(self).loops@[id as int];
                let pf = old(self).print_fn;
                let rf = old(self).read_fn;
                p matches JITPromise::Deferred(b) ==> {
                    let (code, ds) = fragment_code(spec_body(b@), pf, rf);
                    if loop_fits(spec_body(b@), pf, rf) {
                        r is Ok && (final(self).loops@[id as int] matches JITPromise::Compiled(
                            t,
                        ) && t.bytes@ == code && promises_deferred(t.loops@, 0, ds) && t.print_fn
                            == pf && t.read_fn == rf)
                    } else {
                        r is Err && final(self).loops@[id as int] == p
                    }
                }
            }),
    {
        let compiled = match &self.loops[id] {
            JITPromise::Compiled(_) => {
                return Ok(());
            },
            JITPromise::Deferred(b) => Self::new_fragment(b, self.print_fn, self.read_fn),
        };
        match compiled {
            Ok(t) => {
                self.loops.set(id, JITPromise::Compiled(t));
                Ok(())
            },
            Err(m) => Err(m),
        }
    }
}

/// The bodies held by the deferred promises of `loops[from..]`, in order.
/// Meaningful only while those entries are all deferred.
pub open spec fn deferred_views(loops: Seq<JITPromise>, from: int) -> Seq<Seq<SpecNode>> {
    Seq::new((loops.len() - from) as nat, |j: int| spec_body(loops[from + j]->Deferred_0@))
}

/// Round an integer division up to the next whole multiple of
/// `denominator`; a value already on a boundary is taken up one more full
/// step.
pub fn int_ceil(numerator: usize, denominator: usize) -> (r: usize)
    requires
        denominator > 0,
        (numerator / denominator + 1) * denominator <= usize::MAX,
    ensures
        r == (numerator / denominator + 1) * denominator,
{
    proof {
        assert((numerator / denominator + 1) <= (numerator / denominator + 1) * denominator)
            by (nonlinear_arith)
            requires
                denominator >= 1,
        ;
    }
    (numerator / denominator + 1) * denominator
}

} // verus!
