//! The intermediate representation and the parser.
//!
//! Source text is consumed one character at a time; the eight instruction
//! characters map to IR nodes and everything else is a comment.  Closed
//! bodies are run-length fused, and a loop that closes while the top-level
//! output is still empty is discarded (the tape starts all zero, so such a
//! loop can never run).

use vstd::prelude::*;

verus! {

/// One instruction of the intermediate representation.
#[derive(Debug, PartialEq)]
pub enum ASTNode {
    /// Add to the current memory cell, wrapping modulo 256.
    Incr(u8),
    /// Subtract from the current memory cell, wrapping modulo 256.
    Decr(u8),
    /// Shift the data pointer to the right.
    Next(usize),
    /// Shift the data pointer to the left.
    Prev(usize),
    /// Display the current memory cell as an ASCII character.
    Print,
    /// Read one character from the input stream.
    Read,
    /// Run the contained instructions while the current memory cell is
    /// not zero.
    Loop(Vec<ASTNode>),
}

/// The mathematical value of an [`ASTNode`]; every contract in this crate
/// speaks of the IR through this type.
pub enum SpecNode {
    Incr(u8),
    Decr(u8),
    Next(usize),
    Prev(usize),
    Print,
    Read,
    Loop(Seq<SpecNode>),
}

impl ASTNode {
    /// The mathematical value of this node.
    pub open spec fn spec_node(self) -> SpecNode
        decreases self,
    {
        match self {
            ASTNode::Incr(n) => SpecNode::Incr(n),
            ASTNode::Decr(n) => SpecNode::Decr(n),
            ASTNode::Next(n) => SpecNode::Next(n),
            ASTNode::Prev(n) => SpecNode::Prev(n),
            ASTNode::Print => SpecNode::Print,
            ASTNode::Read => SpecNode::Read,
            ASTNode::Loop(body) => SpecNode::Loop(spec_body(body@)),
        }
    }
}

/// The mathematical value of a sequence of IR nodes.
pub open spec fn spec_body(s: Seq<ASTNode>) -> Seq<SpecNode>
    decreases s,
{
    if s.len() == 0 {
        Seq::empty()
    } else {
        seq![s[0].spec_node()] + spec_body(s.subrange(1, s.len() as int))
    }
}

/// A body's mathematical value has one entry per node.
pub broadcast proof fn lemma_spec_body_len(s: Seq<ASTNode>)
    ensures
        (#[trigger] spec_body(s)).len() == s.len(),
    decreases s.len(),
{
    if s.len() > 0 {
        lemma_spec_body_len(s.subrange(1, s.len() as int));
    }
}

/// A body's mathematical value is the node-wise mathematical value.
pub broadcast proof fn lemma_spec_body_index(s: Seq<ASTNode>, i: int)
    requires
        0 <= i < s.len(),
    ensures
        (#[trigger] spec_body(s)[i]) == s[i].spec_node(),
    decreases s.len(),
{
    lemma_spec_body_len(s);
    if i > 0 {
        lemma_spec_body_index(s.subrange(1, s.len() as int), i - 1);
    }
}

impl Clone for ASTNode {
    /// A clone has the same mathematical value as the original.
    fn clone(&self) -> (r: Self)
        ensures
            r.spec_node() == self.spec_node(),
        decreases *self,
    {
        match self {
            ASTNode::Incr(n) => ASTNode::Incr(*n),
            ASTNode::Decr(n) => ASTNode::Decr(*n),
            ASTNode::Next(n) => ASTNode::Next(*n),
            ASTNode::Prev(n) => ASTNode::Prev(*n),
            ASTNode::Print => ASTNode::Print,
            ASTNode::Read => ASTNode::Read,
            ASTNode::Loop(body) => {
                proof {
                    assert(decreases_to!(*self => (*self)->Loop_0));
                    assert(decreases_to!(*body => body@));
                }
                ASTNode::Loop(clone_body(body))
            }
        }
    }
}

/// Clone a body of IR nodes; the clone has the same mathematical value.
#[verifier::loop_isolation(false)]
pub fn clone_body(v: &Vec<ASTNode>) -> (r: Vec<ASTNode>)
    ensures
        spec_body(r@) == spec_body(v@),
    decreases v@,
{
    broadcast use lemma_spec_body_len, lemma_spec_body_index;

    let mut out: Vec<ASTNode> = Vec::new();
    let mut i: usize = 0;
    while i < v.len()
        invariant
            i <= v.len(),
            out@.len() == i,
            forall|j: int| 0 <= j < i ==> out@[j].spec_node() == v@[j].spec_node(),
        decreases v.len() - i,
    {
        proof {
            assert(decreases_to!(v@ => v@[i as int]));
        }
        let c = v[i].clone();
        out.push(c);
        i = i + 1;
    }
    proof {
        assert(spec_body(out@) =~= spec_body(v@));
    }
    out
}

/// Whether two adjacent nodes are runs of the same fusible operation.
pub open spec fn combinable(a: SpecNode, b: SpecNode) -> bool {
    ||| (a is Incr && b is Incr)
    ||| (a is Decr && b is Decr)
    ||| (a is Next && b is Next)
    ||| (a is Prev && b is Prev)
}

/// Merge two adjacent runs, adding their counts with wrapping semantics in
/// the element's numeric domain.
pub open spec fn combine(a: SpecNode, b: SpecNode) -> SpecNode {
    match (a, b) {
        (SpecNode::Incr(x), SpecNode::Incr(y)) => SpecNode::Incr(
            vstd::wrapping::u8_specs::wrapping_add(x, y),
        ),
        (SpecNode::Decr(x), SpecNode::Decr(y)) => SpecNode::Decr(
            vstd::wrapping::u8_specs::wrapping_add(x, y),
        ),
        (SpecNode::Next(x), SpecNode::Next(y)) => SpecNode::Next(
            vstd::wrapping::usize_specs::wrapping_add(x, y),
        ),
        (SpecNode::Prev(x), SpecNode::Prev(y)) => SpecNode::Prev(
            vstd::wrapping::usize_specs::wrapping_add(x, y),
        ),
        _ => b,
    }
}

/// One step of run-length fusion: append `n` to `out`, merging it into the
/// last node when the two are runs of the same operation.
pub open spec fn fuse_step(out: Seq<SpecNode>, n: SpecNode) -> Seq<SpecNode> {
    if out.len() > 0 && combinable(out.last(), n) {
        out.drop_last().push(combine(out.last(), n))
    } else {
        out.push(n)
    }
}

/// Run-length fusion of the nodes of `s` from position `i` on, with `out`
/// already built.
pub open spec fn fuse_from(s: Seq<SpecNode>, i: int, out: Seq<SpecNode>) -> Seq<SpecNode>
    decreases s.len() - i,
{
    if i < 0 || i >= s.len() {
        out
    } else {
        fuse_from(s, i + 1, fuse_step(out, s[i]))
    }
}

/// Run-length fusion of a whole body: runs of `Incr`/`Decr`/`Next`/`Prev`
/// are merged into single nodes; everything else is kept as it stands.
pub open spec fn fuse(s: Seq<SpecNode>) -> Seq<SpecNode> {
    fuse_from(s, 0, Seq::empty())
}

/// What parsing a source text yields: the fused top-level body, or the
/// direction of a bracket imbalance.
pub enum SpecParse {
    /// Parsing succeeds with this top-level body.
    Parsed(Seq<SpecNode>),
    /// A `]` closes a loop that was never opened.
    ExtraClose,
    /// A `[` is still open at the end of the input.
    ExtraOpen,
}

/// Whether `c` is one of the six single-step instruction characters.
pub open spec fn is_op(c: char) -> bool {
    c == '+' || c == '-' || c == '>' || c == '<' || c == '.' || c == ','
}

/// The single-step node a non-bracket instruction character stands for.
pub open spec fn op_node(c: char) -> SpecNode {
    if c == '+' {
        SpecNode::Incr(1)
    } else if c == '-' {
        SpecNode::Decr(1)
    } else if c == '>' {
        SpecNode::Next(1)
    } else if c == '<' {
        SpecNode::Prev(1)
    } else if c == '.' {
        SpecNode::Print
    } else {
        SpecNode::Read
    }
}

/// The parse of `s` from position `i` on.  `stack` holds the bodies of the
/// open loops, outermost first (`stack[0]` is the top-level output when any
/// loop is open); `cur` is the innermost body still being built, or the
/// top-level output when no loop is open.
///
/// On `]` the closed body is fused and wrapped in a `Loop` node — unless the
/// top-level output is still empty, in which case the whole closed body is
/// discarded: the tape starts all zero and a loop in an all-loop prefix of
/// the program can never be entered.
pub open spec fn parse_from(
    s: Seq<char>,
    i: int,
    stack: Seq<Seq<SpecNode>>,
    cur: Seq<SpecNode>,
) -> SpecParse
    decreases s.len() - i,
{
    if i < 0 || i >= s.len() {
        if stack.len() == 0 {
            SpecParse::Parsed(fuse(cur))
        } else {
            SpecParse::ExtraOpen
        }
    } else {
        let c = s[i];
        if c == '[' {
            parse_from(s, i + 1, stack.push(cur), Seq::empty())
        } else if c == ']' {
            if stack.len() == 0 {
                SpecParse::ExtraClose
            } else {
                let parent = stack.last();
                let rest = stack.drop_last();
                let output_empty = if rest.len() > 0 {
                    rest[0].len() == 0
                } else {
                    parent.len() == 0
                };
                if output_empty {
                    parse_from(s, i + 1, rest, parent)
                } else {
                    parse_from(s, i + 1, rest, parent.push(SpecNode::Loop(fuse(cur))))
                }
            }
        } else if is_op(c) {
            parse_from(s, i + 1, stack, cur.push(op_node(c)))
        } else {
            parse_from(s, i + 1, stack, cur)
        }
    }
}

/// The parse of a whole source text.
pub open spec fn spec_parse(s: Seq<char>) -> SpecParse {
    parse_from(s, 0, Seq::empty(), Seq::empty())
}

/// The mathematical value of a stack of open-loop bodies.
pub open spec fn stack_view(s: Seq<Vec<ASTNode>>) -> Seq<Seq<SpecNode>> {
    Seq::new(s.len(), |i: int| spec_body(s[i]@))
}

/// Container for the parsed top-level body.
#[derive(Debug)]
pub struct AST {
    pub data: Vec<ASTNode>,
}

impl AST {
    /// Convert raw input into an AST.
    ///
    /// Instruction characters become IR nodes, all other characters are
    /// comments; runs are fused and never-entered leading loops discarded,
    /// exactly as [`spec_parse`] says.
    #[verifier::loop_isolation(false)]
    pub fn parse(input: &str) -> (r: Result<AST, String>)
        ensures
            match spec_parse(input@) {
                SpecParse::Parsed(b) => r is Ok && spec_body(r->Ok_0.data@) == b,
                SpecParse::ExtraClose => r is Err && r->Err_0@ == "More ] than ["@,
                SpecParse::ExtraOpen => r is Err && r->Err_0@ == "More [ than ]"@,
            },
    {
        broadcast use lemma_spec_body_len, lemma_spec_body_index;

        let n = input.unicode_len();
        let mut stack: Vec<Vec<ASTNode>> = Vec::new();
        let mut cur: Vec<ASTNode> = Vec::new();
        let mut i: usize = 0;
        proof {
            assert(stack_view(stack@) =~= Seq::<Seq<SpecNode>>::empty());
            assert(spec_body(cur@) =~= Seq::<SpecNode>::empty());
        }
        while i < n
            invariant
                i <= n,
                n == input@.len(),
                parse_from(input@, i as int, stack_view(stack@), spec_body(cur@))
                    == spec_parse(input@),
            decreases n - i,
        {
            let ghost pre_stack = stack_view(stack@);
            let ghost pre_cur = spec_body(cur@);
            let c = input.get_char(i);
            if c == '[' {
                stack.push(cur);
                cur = Vec::new();
                proof {
                    assert(stack_view(stack@) =~= pre_stack.push(pre_cur));
                    assert(spec_body(cur@) =~= Seq::<SpecNode>::empty());
                }
            } else if c == ']' {
                match stack.pop() {
                    None => {
                        return Err("More ] than [".to_owned());
                    },
                    Some(parent) => {
                        let fused = Self::shallow_run_length_optimize(cur);
                        let output_empty = if stack.len() > 0 {
                            stack[0].len() == 0
                        } else {
                            parent.len() == 0
                        };
                        proof {
                            assert(stack_view(stack@) =~= pre_stack.drop_last());
                            assert(spec_body(parent@) == pre_stack.last());
                        }
                        if output_empty {
                            cur = parent;
                        } else {
                            let mut p = parent;
                            let ghost pre_p = spec_body(p@);
                            p.push(ASTNode::Loop(fused));
                            proof {
                                assert(spec_body(p@) =~= pre_p.push(
                                    SpecNode::Loop(fuse(pre_cur)),
                                ));
                            }
                            cur = p;
                        }
                    },
                }
            } else if c == '+' {
                cur.push(ASTNode::Incr(1));
                proof {
                    assert(spec_body(cur@) =~= pre_cur.push(op_node(c)));
                }
            } else if c == '-' {
                cur.push(ASTNode::Decr(1));
                proof {
                    assert(spec_body(cur@) =~= pre_cur.push(op_node(c)));
                }
            } else if c == '>' {
                cur.push(ASTNode::Next(1));
                proof {
                    assert(spec_body(cur@) =~= pre_cur.push(op_node(c)));
                }
            } else if c == '<' {
                cur.push(ASTNode::Prev(1));
                proof {
                    assert(spec_body(cur@) =~= pre_cur.push(op_node(c)));
                }
            } else if c == '.' {
                cur.push(ASTNode::Print);
                proof {
                    assert(spec_body(cur@) =~= pre_cur.push(op_node(c)));
                }
            } else if c == ',' {
                cur.push(ASTNode::Read);
                proof {
                    assert(spec_body(cur@) =~= pre_cur.push(op_node(c)));
                }
            }
            i = i + 1;
        }
        if stack.len() > 0 {
            return Err("More [ than ]".to_owned());
        }
        let data = Self::shallow_run_length_optimize(cur);
        Ok(AST { data })
    }

    /// Convert runs of `+`, `-`, `<` and `>` into bulk operations.
    #[verifier::loop_isolation(false)]
    fn shallow_run_length_optimize(input: Vec<ASTNode>) -> (r: Vec<ASTNode>)
        ensures
            spec_body(r@) == fuse(spec_body(input@)),
    {
        broadcast use lemma_spec_body_len, lemma_spec_body_index;

        let mut output: Vec<ASTNode> = Vec::new();
        let mut i: usize = 0;
        while i < input.len()
            invariant
                i <= input@.len(),
                fuse_from(spec_body(input@), i as int, spec_body(output@))
                    == fuse(spec_body(input@)),
            decreases input@.len() - i,
        {
            let ghost pre = spec_body(output@);
            let ghost sb = spec_body(input@);
            let olen = output.len();

            // When the last node already in the output is the same fusible
            // operation, merge the counts instead of appending a twin.
            let combined: Option<ASTNode> = if olen > 0 {
                match (&output[olen - 1], &input[i]) {
                    (ASTNode::Incr(b), ASTNode::Incr(a)) => Some(ASTNode::Incr(a.wrapping_add(*b))),
                    (ASTNode::Decr(b), ASTNode::Decr(a)) => Some(ASTNode::Decr(a.wrapping_add(*b))),
                    (ASTNode::Next(b), ASTNode::Next(a)) => Some(ASTNode::Next(a.wrapping_add(*b))),
                    (ASTNode::Prev(b), ASTNode::Prev(a)) => Some(ASTNode::Prev(a.wrapping_add(*b))),
                    _ => None,
                }
            } else {
                None
            };
            match combined {
                Some(c) => {
                    output.pop();
                    output.push(c);
                },
                None => {
                    let c = input[i].clone();
                    output.push(c);
                },
            }
            proof {
                assert(spec_body(output@) =~= fuse_step(pre, sb[i as int]));
            }
            i = i + 1;
        }
        output
    }
}

/// How a left-to-right bracket scan of `s[i..]` ends, starting `d` loops
/// deep: every bracket finds its partner, a `]` arrives at depth zero, or
/// some `[` is still open at the end.
pub enum BracketScan {
    AllMatched,
    UnmatchedClose,
    UnmatchedOpen,
}

/// Scan `s[i..]` for bracket balance, starting `d` loops deep.
pub open spec fn bracket_scan(s: Seq<char>, i: int, d: int) -> BracketScan
    decreases s.len() - i,
{
    if i < 0 || i >= s.len() {
        if d == 0 {
            BracketScan::AllMatched
        } else {
            BracketScan::UnmatchedOpen
        }
    } else if s[i] == '[' {
        bracket_scan(s, i + 1, d + 1)
    } else if s[i] == ']' {
        if d == 0 {
            BracketScan::UnmatchedClose
        } else {
            bracket_scan(s, i + 1, d - 1)
        }
    } else {
        bracket_scan(s, i + 1, d)
    }
}

/// The bracket depth of the prefix `s[0..i]`: the number of `[` minus the
/// number of `]` in it.
pub open spec fn net_depth(s: Seq<char>, i: int) -> int
    decreases i,
{
    if i <= 0 {
        0
    } else {
        net_depth(s, i - 1) + if s[i - 1] == '[' {
            1int
        } else if s[i - 1] == ']' {
            -1int
        } else {
            0int
        }
    }
}

/// Brackets are balanced: no prefix closes more than it opens, and the
/// whole text opens exactly as often as it closes.
pub open spec fn balanced(s: Seq<char>) -> bool {
    &&& forall|j: int| 0 <= j <= s.len() ==> net_depth(s, j) >= 0
    &&& net_depth(s, s.len() as int) == 0
}

/// Which way the parse ends depends only on the bracket structure of the
/// remaining input and on how many loops are open.
proof fn lemma_parse_from_scan(s: Seq<char>, i: int, stack: Seq<Seq<SpecNode>>, cur: Seq<SpecNode>)
    requires
        0 <= i <= s.len(),
    ensures
        parse_from(s, i, stack, cur) is Parsed <==> bracket_scan(s, i, stack.len() as int)
            is AllMatched,
        parse_from(s, i, stack, cur) is ExtraClose <==> bracket_scan(s, i, stack.len() as int)
            is UnmatchedClose,
        parse_from(s, i, stack, cur) is ExtraOpen <==> bracket_scan(s, i, stack.len() as int)
            is UnmatchedOpen,
    decreases s.len() - i,
{
    if i < s.len() {
        let c = s[i];
        if c == '[' {
            lemma_parse_from_scan(s, i + 1, stack.push(cur), Seq::empty());
        } else if c == ']' {
            if stack.len() > 0 {
                let parent = stack.last();
                let rest = stack.drop_last();
                let output_empty = if rest.len() > 0 {
                    rest[0].len() == 0
                } else {
                    parent.len() == 0
                };
                if output_empty {
                    lemma_parse_from_scan(s, i + 1, rest, parent);
                } else {
                    lemma_parse_from_scan(s, i + 1, rest, parent.push(SpecNode::Loop(fuse(cur))));
                }
            }
        } else if is_op(c) {
            lemma_parse_from_scan(s, i + 1, stack, cur.push(op_node(c)));
        } else {
            lemma_parse_from_scan(s, i + 1, stack, cur);
        }
    }
}

/// A bracket scan of `s[i..]` at depth `d` is classified exactly by the
/// prefix depths of `s`.
proof fn lemma_scan_depths(s: Seq<char>, i: int, d: int)
    requires
        0 <= i <= s.len(),
        d >= 0,
    ensures
        bracket_scan(s, i, d) is AllMatched <==> ((forall|j: int|
            i <= j <= s.len() ==> d + net_depth(s, j) - net_depth(s, i) >= 0) && d + net_depth(
            s,
            s.len() as int,
        ) - net_depth(s, i) == 0),
        bracket_scan(s, i, d) is UnmatchedClose <==> (exists|j: int|
            i <= j <= s.len() && d + net_depth(s, j) - net_depth(s, i) < 0),
    decreases s.len() - i,
{
    if i == s.len() {
        assert(forall|j: int| i <= j <= s.len() ==> net_depth(s, j) == net_depth(s, i));
    } else {
        let c = s[i];
        assert(net_depth(s, i + 1) == net_depth(s, i) + if c == '[' {
            1int
        } else if c == ']' {
            -1int
        } else {
            0int
        });
        if c == ']' && d == 0 {
            assert(d + net_depth(s, i + 1) - net_depth(s, i) < 0);
        } else {
            let d2 = if c == '[' {
                d + 1
            } else if c == ']' {
                d - 1
            } else {
                d
            };
            lemma_scan_depths(s, i + 1, d2);
            assert forall|j: int| i + 1 <= j <= s.len() implies d + #[trigger] net_depth(s, j)
                - net_depth(s, i) == d2 + net_depth(s, j) - net_depth(s, i + 1) by {}
            if bracket_scan(s, i, d) is AllMatched {
                assert forall|j: int| i <= j <= s.len() implies d + net_depth(s, j) - net_depth(
                    s,
                    i,
                ) >= 0 by {
                    if j > i {
                        assert(d2 + net_depth(s, j) - net_depth(s, i + 1) >= 0);
                    }
                }
            }
            if exists|j: int| i <= j <= s.len() && d + net_depth(s, j) - net_depth(s, i) < 0 {
                let j = choose|j: int| i <= j <= s.len() && d + net_depth(s, j) - net_depth(s, i)
                    < 0;
                assert(j > i);
                assert(d2 + net_depth(s, j) - net_depth(s, i + 1) < 0);
            }
        }
    }
}

/// Parse totality and balance rejection.
///
/// Parsing succeeds on exactly the sources whose brackets are balanced; a
/// source in which some prefix closes more loops than were opened is
/// rejected as having an extra `]`, and every other unbalanced source is
/// rejected as having an extra `[`.
pub proof fn lemma_parse_balance(s: Seq<char>)
    ensures
        spec_parse(s) is Parsed <==> balanced(s),
        spec_parse(s) is ExtraClose <==> (exists|j: int| 0 <= j <= s.len() && net_depth(s, j) < 0),
        spec_parse(s) is ExtraOpen <==> ((forall|j: int| 0 <= j <= s.len() ==> net_depth(s, j) >= 0)
            && net_depth(s, s.len() as int) != 0),
{
    lemma_parse_from_scan(s, 0, Seq::empty(), Seq::empty());
    lemma_scan_depths(s, 0, 0);
}

/// A node is in run-length normal form: every loop body inside it is.
pub open spec fn normal_node(n: SpecNode) -> bool
    decreases n, 0int,
{
    match n {
        SpecNode::Loop(b) => normal_from(b, 0),
        _ => true,
    }
}

/// `b[i..]` is in run-length normal form: no two adjacent nodes of the same
/// fusible variant, and every loop body inside is normal too.
pub open spec fn normal_from(b: Seq<SpecNode>, i: int) -> bool
    decreases b, b.len() - i,
{
    if i < 0 || i >= b.len() {
        true
    } else {
        &&& normal_node(b[i])
        &&& (i + 1 < b.len() ==> !combinable(b[i], b[i + 1]))
        &&& normal_from(b, i + 1)
    }
}

/// A whole body is in run-length normal form.
pub open spec fn normal_body(b: Seq<SpecNode>) -> bool {
    normal_from(b, 0)
}

/// Every node of `b` is in normal form.
pub open spec fn all_normal(b: Seq<SpecNode>) -> bool {
    forall|j: int| 0 <= j < b.len() ==> normal_node(#[trigger] b[j])
}

/// No two adjacent nodes of `b` are runs of the same fusible operation.
pub open spec fn no_adjacent_runs(b: Seq<SpecNode>) -> bool {
    forall|j: int| 0 <= j && j + 1 < b.len() ==> !#[trigger] combinable(b[j], b[j + 1])
}

/// Normal form, spelled out: all nodes normal and no adjacent runs.
pub proof fn lemma_normal_from_iff(b: Seq<SpecNode>, i: int)
    requires
        0 <= i <= b.len(),
    ensures
        normal_from(b, i) <==> ((forall|j: int| i <= j < b.len() ==> normal_node(#[trigger] b[j]))
            && (forall|j: int| i <= j && j + 1 < b.len() ==> !#[trigger] combinable(
            b[j],
            b[j + 1],
        ))),
    decreases b.len() - i,
{
    if i < b.len() {
        lemma_normal_from_iff(b, i + 1);
    }
}

/// Normal form of a whole body, spelled out.
pub proof fn lemma_normal_body_iff(b: Seq<SpecNode>)
    ensures
        normal_body(b) <==> (all_normal(b) && no_adjacent_runs(b)),
{
    lemma_normal_from_iff(b, 0);
}

/// Merging two runs keeps the variant of the run and yields a normal node.
proof fn lemma_combine_variant(a: SpecNode, n: SpecNode)
    requires
        combinable(a, n),
    ensures
        normal_node(combine(a, n)),
        forall|x: SpecNode| combinable(x, #[trigger] combine(a, n)) == combinable(x, a),
        forall|x: SpecNode| combinable(#[trigger] combine(a, n), x) == combinable(a, x),
{
}

/// One fusion step keeps the output free of adjacent runs and all-normal.
proof fn lemma_fuse_step_normal(out: Seq<SpecNode>, n: SpecNode)
    requires
        all_normal(out),
        no_adjacent_runs(out),
        normal_node(n),
    ensures
        all_normal(fuse_step(out, n)),
        no_adjacent_runs(fuse_step(out, n)),
{
    if out.len() > 0 && combinable(out.last(), n) {
        lemma_combine_variant(out.last(), n);
        let r = fuse_step(out, n);
        assert forall|j: int| 0 <= j && j + 1 < r.len() implies !#[trigger] combinable(
            r[j],
            r[j + 1],
        ) by {
            if j + 2 == r.len() && r.len() >= 2 {
                assert(r[j] == out[j]);
                assert(!combinable(out[j], out[j + 1]));
            }
        }
    }
}

/// Fusion of an all-normal body yields a normal body.
proof fn lemma_fuse_from_normal(s: Seq<SpecNode>, i: int, out: Seq<SpecNode>)
    requires
        0 <= i <= s.len(),
        all_normal(s),
        all_normal(out),
        no_adjacent_runs(out),
    ensures
        all_normal(fuse_from(s, i, out)),
        no_adjacent_runs(fuse_from(s, i, out)),
    decreases s.len() - i,
{
    if i < s.len() {
        lemma_fuse_step_normal(out, s[i]);
        lemma_fuse_from_normal(s, i + 1, fuse_step(out, s[i]));
    }
}

/// Every body the parse is still building holds only normal nodes, so the
/// body it returns is normal.
proof fn lemma_parse_from_normal(s: Seq<char>, i: int, stack: Seq<Seq<SpecNode>>, cur: Seq<SpecNode>)
    requires
        0 <= i <= s.len(),
        forall|k: int| 0 <= k < stack.len() ==> all_normal(#[trigger] stack[k]),
        all_normal(cur),
    ensures
        parse_from(s, i, stack, cur) matches SpecParse::Parsed(b) ==> normal_body(b),
    decreases s.len() - i,
{
    if i >= s.len() {
        if stack.len() == 0 {
            lemma_fuse_from_normal(cur, 0, Seq::empty());
            lemma_normal_body_iff(fuse(cur));
        }
    } else {
        let c = s[i];
        if c == '[' {
            lemma_parse_from_normal(s, i + 1, stack.push(cur), Seq::empty());
        } else if c == ']' {
            if stack.len() > 0 {
                let parent = stack.last();
                let rest = stack.drop_last();
                let output_empty = if rest.len() > 0 {
                    rest[0].len() == 0
                } else {
                    parent.len() == 0
                };
                assert(forall|k: int| 0 <= k < rest.len() ==> all_normal(#[trigger] rest[k]));
                if output_empty {
                    lemma_parse_from_normal(s, i + 1, rest, parent);
                } else {
                    lemma_fuse_from_normal(cur, 0, Seq::empty());
                    lemma_normal_body_iff(fuse(cur));
                    let p2 = parent.push(SpecNode::Loop(fuse(cur)));
                    assert(all_normal(p2)) by {
                        assert(forall|j: int| 0 <= j < parent.len() ==> p2[j] == parent[j]);
                        assert(normal_node(p2[parent.len() as int]));
                    }
                    lemma_parse_from_normal(s, i + 1, rest, p2);
                }
            }
        } else if is_op(c) {
            let c2 = cur.push(op_node(c));
            assert(all_normal(c2)) by {
                assert(forall|j: int| 0 <= j < cur.len() ==> c2[j] == cur[j]);
                assert(normal_node(c2[cur.len() as int]));
            }
            lemma_parse_from_normal(s, i + 1, stack, c2);
        } else {
            lemma_parse_from_normal(s, i + 1, stack, cur);
        }
    }
}

/// Run-length normal form: in any parsed IR, no body — nested loop bodies
/// included — contains two adjacent nodes of the same fusible variant.
pub proof fn lemma_parse_normal_form(s: Seq<char>)
    ensures
        spec_parse(s) matches SpecParse::Parsed(b) ==> normal_body(b),
{
    lemma_parse_from_normal(s, 0, Seq::empty(), Seq::empty());
}

/// Fusion keeps the head of a body: a body whose first node is not a loop
/// fuses to a body whose first node is not a loop.
proof fn lemma_fuse_from_first(s: Seq<SpecNode>, i: int, out: Seq<SpecNode>)
    requires
        0 <= i <= s.len(),
        out.len() > 0,
        !(out[0] is Loop),
    ensures
        fuse_from(s, i, out).len() > 0,
        !(fuse_from(s, i, out)[0] is Loop),
    decreases s.len() - i,
{
    if i < s.len() {
        let st = fuse_step(out, s[i]);
        assert(st.len() > 0 && !(st[0] is Loop));
        lemma_fuse_from_first(s, i + 1, st);
    }
}

/// The body that will become the top-level output: the bottom of the open
/// stack, or the current body when no loop is open.
pub open spec fn bottom_body(stack: Seq<Seq<SpecNode>>, cur: Seq<SpecNode>) -> Seq<SpecNode> {
    if stack.len() > 0 {
        stack[0]
    } else {
        cur
    }
}

/// The parse never puts a loop at the head of the top-level output.
proof fn lemma_parse_from_head(s: Seq<char>, i: int, stack: Seq<Seq<SpecNode>>, cur: Seq<SpecNode>)
    requires
        0 <= i <= s.len(),
        bottom_body(stack, cur).len() > 0 ==> !(bottom_body(stack, cur)[0] is Loop),
    ensures
        parse_from(s, i, stack, cur) matches SpecParse::Parsed(b) ==> (b.len() > 0 ==> !(b[0]
            is Loop)),
    decreases s.len() - i,
{
    if i >= s.len() {
        if stack.len() == 0 && cur.len() > 0 {
            assert(fuse(cur) == fuse_from(cur, 1, fuse_step(Seq::empty(), cur[0])));
            lemma_fuse_from_first(cur, 1, Seq::empty().push(cur[0]));
        }
    } else {
        let c = s[i];
        if c == '[' {
            assert(bottom_body(stack.push(cur), Seq::empty()) == bottom_body(stack, cur));
            lemma_parse_from_head(s, i + 1, stack.push(cur), Seq::empty());
        } else if c == ']' {
            if stack.len() > 0 {
                let parent = stack.last();
                let rest = stack.drop_last();
                let output_empty = if rest.len() > 0 {
                    rest[0].len() == 0
                } else {
                    parent.len() == 0
                };
                if output_empty {
                    assert(bottom_body(rest, parent) == bottom_body(stack, cur));
                    lemma_parse_from_head(s, i + 1, rest, parent);
                } else {
                    let p2 = parent.push(SpecNode::Loop(fuse(cur)));
                    assert(bottom_body(rest, p2).len() > 0 ==> !(bottom_body(rest, p2)[0]
                        is Loop));
                    lemma_parse_from_head(s, i + 1, rest, p2);
                }
            }
        } else if is_op(c) {
            let c2 = cur.push(op_node(c));
            assert(bottom_body(stack, c2).len() > 0 ==> !(bottom_body(stack, c2)[0] is Loop));
            lemma_parse_from_head(s, i + 1, stack, c2);
        } else {
            lemma_parse_from_head(s, i + 1, stack, cur);
        }
    }
}

/// Empty-prefix loop elision, seen in the parsed IR: the top-level body of
/// any parsed program starts with a non-loop instruction.  A loop standing
/// before every non-loop instruction could never have run — the tape is
/// still all zero there — and the parse has discarded it.
pub proof fn lemma_parse_no_leading_loop(s: Seq<char>)
    ensures
        spec_parse(s) matches SpecParse::Parsed(b) ==> (b.len() > 0 ==> !(b[0] is Loop)),
{
    lemma_parse_from_head(s, 0, Seq::empty(), Seq::empty());
}

/// A body with the loops before its first non-loop instruction removed.
pub open spec fn drop_leading_loops(b: Seq<SpecNode>) -> Seq<SpecNode>
    decreases b.len(),
{
    if b.len() > 0 && b[0] is Loop {
        drop_leading_loops(b.drop_first())
    } else {
        b
    }
}

/// The parse of `s[i..]` without empty-prefix loop elision: every closed
/// body is kept and wrapped in a `Loop` node.
pub open spec fn parse_plain_from(
    s: Seq<char>,
    i: int,
    stack: Seq<Seq<SpecNode>>,
    cur: Seq<SpecNode>,
) -> SpecParse
    decreases s.len() - i,
{
    if i < 0 || i >= s.len() {
        if stack.len() == 0 {
            SpecParse::Parsed(fuse(cur))
        } else {
            SpecParse::ExtraOpen
        }
    } else {
        let c = s[i];
        if c == '[' {
            parse_plain_from(s, i + 1, stack.push(cur), Seq::empty())
        } else if c == ']' {
            if stack.len() == 0 {
                SpecParse::ExtraClose
            } else {
                parse_plain_from(
                    s,
                    i + 1,
                    stack.drop_last(),
                    stack.last().push(SpecNode::Loop(fuse(cur))),
                )
            }
        } else if is_op(c) {
            parse_plain_from(s, i + 1, stack, cur.push(op_node(c)))
        } else {
            parse_plain_from(s, i + 1, stack, cur)
        }
    }
}

/// The parse of a whole source text without empty-prefix loop elision.
pub open spec fn parse_plain(s: Seq<char>) -> SpecParse {
    parse_plain_from(s, 0, Seq::empty(), Seq::empty())
}

/// Every node of `b` is a loop.
pub open spec fn all_loops(b: Seq<SpecNode>) -> bool {
    forall|j: int| 0 <= j < b.len() ==> (#[trigger] b[j]) is Loop
}

/// Fusion leaves a row of loops untouched: loops never merge.
proof fn lemma_fuse_from_loops(x: Seq<SpecNode>, j: int)
    requires
        all_loops(x),
        0 <= j <= x.len(),
    ensures
        fuse_from(x, j, x.subrange(0, j)) == x,
    decreases x.len() - j,
{
    if j < x.len() {
        let out = x.subrange(0, j);
        assert(fuse_step(out, x[j]) =~= x.subrange(0, j + 1));
        lemma_fuse_from_loops(x, j + 1);
    } else {
        assert(x.subrange(0, j) =~= x);
    }
}

/// A row of loops fuses to itself.
proof fn lemma_fuse_all_loops(x: Seq<SpecNode>)
    requires
        all_loops(x),
    ensures
        fuse(x) == x,
{
    assert(x.subrange(0, 0) =~= Seq::<SpecNode>::empty());
    lemma_fuse_from_loops(x, 0);
}

/// Fusing behind a row of loops fuses the rest on its own: the loops take
/// part in no merge.
proof fn lemma_fuse_from_prefix(lp: Seq<SpecNode>, x: Seq<SpecNode>, i: int, out: Seq<SpecNode>)
    requires
        all_loops(lp),
        0 <= i <= x.len(),
    ensures
        fuse_from(lp + x, lp.len() + i, lp + out) == lp + fuse_from(x, i, out),
    decreases x.len() - i,
{
    if i < x.len() {
        assert((lp + x)[lp.len() + i] == x[i]);
        let n = x[i];
        if out.len() == 0 {
            if lp.len() > 0 {
                assert((lp + out).last() == lp.last());
                assert(lp.last() is Loop);
            }
            assert(fuse_step(lp + out, n) =~= lp + fuse_step(out, n));
        } else {
            assert((lp + out).last() == out.last());
            if combinable(out.last(), n) {
                assert((lp + out).drop_last().push(combine(out.last(), n)) =~= lp
                    + out.drop_last().push(combine(out.last(), n)));
            } else {
                assert((lp + out).push(n) =~= lp + out.push(n));
            }
        }
        lemma_fuse_from_prefix(lp, x, i + 1, fuse_step(out, x[i]));
    }
}

/// Fusion of a row of loops followed by anything: the loops stay as they
/// are and the rest fuses on its own.
proof fn lemma_fuse_prefix(lp: Seq<SpecNode>, x: Seq<SpecNode>)
    requires
        all_loops(lp),
    ensures
        fuse(lp + x) == lp + fuse(x),
{
    let s = lp + x;
    lemma_fuse_loops_walk(lp, x, lp.len() as int);
    assert(lp.subrange(0, lp.len() as int) =~= lp);
    assert(fuse_from(s, 0, Seq::empty()) == fuse_from(s, lp.len() as int, lp));
    assert(lp + Seq::<SpecNode>::empty() =~= lp);
    lemma_fuse_from_prefix(lp, x, 0, Seq::empty());
}

/// Walking the leading loops of `lp + x` only copies them to the output.
proof fn lemma_fuse_loops_walk(lp: Seq<SpecNode>, x: Seq<SpecNode>, j: int)
    requires
        all_loops(lp),
        0 <= j <= lp.len(),
    ensures
        fuse_from(lp + x, 0, Seq::empty()) == fuse_from(lp + x, j, lp.subrange(0, j)),
    decreases j,
{
    let s = lp + x;
    assert(lp.subrange(0, 0) =~= Seq::<SpecNode>::empty());
    if j > 0 {
        lemma_fuse_loops_walk(lp, x, j - 1);
        let out = lp.subrange(0, j - 1);
        assert(s[j - 1] == lp[j - 1]);
        assert(lp[j - 1] is Loop);
        if out.len() > 0 {
            assert(out.last() == lp[j - 2]);
        }
        assert(fuse_step(out, s[j - 1]) =~= lp.subrange(0, j));
    }
}

/// Dropping a row of leading loops in front of a body that does not start
/// with a loop yields that body.
proof fn lemma_drop_prefix(lp: Seq<SpecNode>, x: Seq<SpecNode>)
    requires
        all_loops(lp),
        x.len() > 0 ==> !(x[0] is Loop),
    ensures
        drop_leading_loops(lp + x) == x,
    decreases lp.len(),
{
    if lp.len() == 0 {
        assert(lp + x =~= x);
    } else {
        assert((lp + x)[0] == lp[0]);
        assert((lp + x).drop_first() =~= lp.drop_first() + x);
        assert(all_loops(lp.drop_first()));
        lemma_drop_prefix(lp.drop_first(), x);
    }
}

/// How the elided and the plain parse of the same text relate: they agree
/// on success and on the direction of any failure, and the elided result is
/// the plain result with its leading loops dropped.
pub open spec fn elision_rel(a: SpecParse, b: SpecParse) -> bool {
    &&& (a is Parsed <==> b is Parsed)
    &&& (a is ExtraClose <==> b is ExtraClose)
    &&& (a is ExtraOpen <==> b is ExtraOpen)
    &&& (a is Parsed ==> a->Parsed_0 == drop_leading_loops(b->Parsed_0))
}

/// Simulation while the top-level output is still empty: the elided parse
/// has dropped every closed loop so far, the plain parse has kept them all
/// as a row of loops at the bottom of its state.
proof fn lemma_sim_empty(
    s: Seq<char>,
    i: int,
    st_e: Seq<Seq<SpecNode>>,
    cur_e: Seq<SpecNode>,
    st_p: Seq<Seq<SpecNode>>,
    cur_p: Seq<SpecNode>,
)
    requires
        0 <= i <= s.len(),
        st_e.len() == st_p.len(),
        bottom_body(st_e, cur_e).len() == 0,
        all_loops(bottom_body(st_p, cur_p)),
    ensures
        elision_rel(parse_from(s, i, st_e, cur_e), parse_plain_from(s, i, st_p, cur_p)),
    decreases s.len() - i,
{
    if i >= s.len() {
        if st_e.len() == 0 {
            lemma_fuse_all_loops(cur_p);
            assert(cur_p + Seq::<SpecNode>::empty() =~= cur_p);
            lemma_drop_prefix(cur_p, Seq::empty());
        }
    } else {
        let c = s[i];
        if c == '[' {
            assert(bottom_body(st_e.push(cur_e), Seq::empty()) == bottom_body(st_e, cur_e));
            assert(bottom_body(st_p.push(cur_p), Seq::empty()) == bottom_body(st_p, cur_p));
            lemma_sim_empty(s, i + 1, st_e.push(cur_e), Seq::empty(), st_p.push(cur_p), Seq::empty());
        } else if c == ']' {
            if st_e.len() > 0 {
                let parent_e = st_e.last();
                let rest_e = st_e.drop_last();
                let parent_p = st_p.last();
                let rest_p = st_p.drop_last();
                let kept = parent_p.push(SpecNode::Loop(fuse(cur_p)));
                if rest_e.len() > 0 {
                    assert(rest_e[0] == st_e[0]);
                    assert(rest_p[0] == st_p[0]);
                    assert(bottom_body(rest_e, parent_e) == bottom_body(st_e, cur_e));
                    assert(bottom_body(rest_p, kept) == bottom_body(st_p, cur_p));
                } else {
                    assert(parent_e == st_e[0]);
                    assert(parent_p == st_p[0]);
                    assert(all_loops(kept)) by {
                        assert(forall|j: int|
                            0 <= j < parent_p.len() ==> kept[j] == parent_p[j]);
                        assert(kept.last() is Loop);
                    }
                }
                lemma_sim_empty(s, i + 1, rest_e, parent_e, rest_p, kept);
            }
        } else if is_op(c) {
            if st_e.len() > 0 {
                lemma_sim_empty(s, i + 1, st_e, cur_e.push(op_node(c)), st_p, cur_p.push(op_node(c)));
            } else {
                let lifted = cur_e.push(op_node(c));
                assert(lifted =~= Seq::<SpecNode>::empty().push(op_node(c)));
                assert(cur_p.push(op_node(c)) =~= cur_p + lifted);
                lemma_sim_loaded(s, i + 1, cur_p, st_e, lifted, st_p, cur_p.push(op_node(c)));
            }
        } else {
            lemma_sim_empty(s, i + 1, st_e, cur_e, st_p, cur_p);
        }
    }
}

/// Simulation after the first non-loop instruction has reached the
/// top-level output: the two parses carry identical states except that the
/// plain one keeps the row `lp` of never-entered loops at the front of its
/// top-level output, and the elided top-level output starts with a
/// non-loop node, so no further loop is ever dropped.
proof fn lemma_sim_loaded(
    s: Seq<char>,
    i: int,
    lp: Seq<SpecNode>,
    st_e: Seq<Seq<SpecNode>>,
    cur_e: Seq<SpecNode>,
    st_p: Seq<Seq<SpecNode>>,
    cur_p: Seq<SpecNode>,
)
    requires
        0 <= i <= s.len(),
        all_loops(lp),
        st_e.len() == st_p.len(),
        st_e.len() > 0 ==> st_p[0] == lp + st_e[0] && st_e[0].len() > 0 && !(st_e[0][0] is Loop)
            && st_p.subrange(1, st_p.len() as int) == st_e.subrange(1, st_e.len() as int) && cur_p
            == cur_e,
        st_e.len() == 0 ==> cur_p == lp + cur_e && cur_e.len() > 0 && !(cur_e[0] is Loop),
    ensures
        elision_rel(parse_from(s, i, st_e, cur_e), parse_plain_from(s, i, st_p, cur_p)),
    decreases s.len() - i,
{
    if i >= s.len() {
        if st_e.len() == 0 {
            lemma_fuse_prefix(lp, cur_e);
            assert(fuse(cur_e) == fuse_from(cur_e, 1, fuse_step(Seq::empty(), cur_e[0])));
            lemma_fuse_from_first(cur_e, 1, Seq::empty().push(cur_e[0]));
            lemma_drop_prefix(lp, fuse(cur_e));
        }
    } else {
        let c = s[i];
        if c == '[' {
            let st_e2 = st_e.push(cur_e);
            let st_p2 = st_p.push(cur_p);
            assert(st_p2[0] == lp + st_e2[0]) by {
                if st_e.len() > 0 {
                    assert(st_p2[0] == st_p[0]);
                } else {
                    assert(st_p2[0] == cur_p);
                }
            }
            assert(st_p2.subrange(1, st_p2.len() as int) =~= st_e2.subrange(
                1,
                st_e2.len() as int,
            )) by {
                if st_e.len() > 0 {
                    assert forall|k: int| 0 <= k < st_p2.len() - 1 implies st_p2.subrange(
                        1,
                        st_p2.len() as int,
                    )[k] == st_e2.subrange(1, st_e2.len() as int)[k] by {
                        if k < st_p.len() - 1 {
                            assert(st_p2.subrange(1, st_p2.len() as int)[k] == st_p[k + 1]);
                            assert(st_e2.subrange(1, st_e2.len() as int)[k] == st_e[k + 1]);
                            assert(st_p.subrange(1, st_p.len() as int)[k] == st_p[k + 1]);
                            assert(st_e.subrange(1, st_e.len() as int)[k] == st_e[k + 1]);
                        } else {
                            assert(st_p2[st_p2.len() - 1] == cur_p);
                            assert(st_e2[st_e2.len() - 1] == cur_e);
                        }
                    }
                }
            }
            lemma_sim_loaded(s, i + 1, lp, st_e2, Seq::empty(), st_p2, Seq::empty());
        } else if c == ']' {
            if st_e.len() > 0 {
                let parent_e = st_e.last();
                let rest_e = st_e.drop_last();
                let parent_p = st_p.last();
                let rest_p = st_p.drop_last();
                let cur_e2 = parent_e.push(SpecNode::Loop(fuse(cur_e)));
                let cur_p2 = parent_p.push(SpecNode::Loop(fuse(cur_p)));
                if st_e.len() == 1 {
                    // Closing the outermost loop: the level-0 bodies meet.
                    assert(parent_p == st_p[0] && parent_e == st_e[0]);
                    assert(!(parent_e.len() == 0));
                    assert(cur_p2 =~= lp + cur_e2);
                    lemma_sim_loaded(s, i + 1, lp, rest_e, cur_e2, rest_p, cur_p2);
                } else {
                    // Closing an inner loop: identical on both sides.
                    assert(parent_p == st_p[st_p.len() - 1] && parent_e == st_e[st_e.len() - 1]);
                    assert(parent_p == parent_e) by {
                        assert(st_p.subrange(1, st_p.len() as int)[st_p.len() - 2] == st_p[st_p.len()
                            - 1]);
                        assert(st_e.subrange(1, st_e.len() as int)[st_e.len() - 2] == st_e[st_e.len()
                            - 1]);
                    }
                    assert(rest_p[0] == st_p[0] && rest_e[0] == st_e[0]);
                    assert(!(rest_e[0].len() == 0));
                    assert(rest_p.subrange(1, rest_p.len() as int) =~= rest_e.subrange(
                        1,
                        rest_e.len() as int,
                    )) by {
                        assert forall|k: int| 0 <= k < rest_p.len() - 1 implies rest_p.subrange(
                            1,
                            rest_p.len() as int,
                        )[k] == rest_e.subrange(1, rest_e.len() as int)[k] by {
                            assert(rest_p.subrange(1, rest_p.len() as int)[k] == rest_p[k + 1]);
                            assert(rest_e.subrange(1, rest_e.len() as int)[k] == rest_e[k + 1]);
                            assert(rest_p[k + 1] == st_p[k + 1]);
                            assert(rest_e[k + 1] == st_e[k + 1]);
                            assert(st_p.subrange(1, st_p.len() as int)[k] == st_p[k + 1]);
                            assert(st_e.subrange(1, st_e.len() as int)[k] == st_e[k + 1]);
                        }
                    }
                    lemma_sim_loaded(s, i + 1, lp, rest_e, cur_e2, rest_p, cur_p2);
                }
            }
        } else if is_op(c) {
            if st_e.len() > 0 {
                lemma_sim_loaded(
                    s,
                    i + 1,
                    lp,
                    st_e,
                    cur_e.push(op_node(c)),
                    st_p,
                    cur_p.push(op_node(c)),
                );
            } else {
                assert(cur_p.push(op_node(c)) =~= lp + cur_e.push(op_node(c)));
                lemma_sim_loaded(
                    s,
                    i + 1,
                    lp,
                    st_e,
                    cur_e.push(op_node(c)),
                    st_p,
                    cur_p.push(op_node(c)),
                );
            }
        } else {
            lemma_sim_loaded(s, i + 1, lp, st_e, cur_e, st_p, cur_p);
        }
    }
}

/// Empty-prefix loop elision changes the parsed IR in exactly one way: the
/// loops that stood before the program's first non-loop instruction are
/// gone.  The elided parse succeeds, or fails in a given direction, exactly
/// when the parse that keeps every loop does.
pub proof fn lemma_elision_drops_leading_loops(s: Seq<char>)
    ensures
        spec_parse(s) is Parsed <==> parse_plain(s) is Parsed,
        spec_parse(s) is ExtraClose <==> parse_plain(s) is ExtraClose,
        spec_parse(s) is ExtraOpen <==> parse_plain(s) is ExtraOpen,
        spec_parse(s) is Parsed ==> spec_parse(s)->Parsed_0 == drop_leading_loops(
            parse_plain(s)->Parsed_0,
        ),
{
    lemma_sim_empty(s, 0, Seq::empty(), Seq::empty(), Seq::empty(), Seq::empty());
}

} // verus!






