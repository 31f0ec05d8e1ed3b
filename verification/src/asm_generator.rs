//! The code generator: a syntax tree to one linear assembly text program.
//!
//! Generation is modelled by the spec function [`gen_seq`], which walks a
//! level of the tree and yields the level's own instruction texts, the
//! labelled loop-body texts collected from its subtrees, the next free loop
//! identifier, and whether input or output was used. Loop identifiers are
//! assigned pre-order, strictly increasing from 1. The final program is the
//! main flow — data section, optional prompt declaration, entry fragment,
//! the top level's instructions, exit fragment — followed by the collected
//! loop bodies, concatenated by [`spec_output`].
use vstd::prelude::*;

use vstd::string::StringExecFns;

use crate::asm_generator::asm_instructions::{
    asm_cell_decrement, asm_cell_increment, asm_cell_ptr_decrement, asm_cell_ptr_increment,
    asm_data_init, asm_exit, asm_loop_call, asm_loop_end, asm_loop_name, asm_main_init,
    asm_print_cell, asm_read_to_cell, asm_stdin_init, dec_digits, dec_string,
    spec_asm_cell_decrement, spec_asm_cell_increment, spec_asm_cell_ptr_decrement,
    spec_asm_cell_ptr_increment, spec_asm_data_init, spec_asm_exit, spec_asm_loop_call,
    spec_asm_loop_end, spec_asm_loop_name, spec_asm_main_init, spec_asm_print_cell,
    spec_asm_read_to_cell, spec_asm_stdin_init,
};
use crate::grammar::{is_op_token, lemma_size_skip_le, seq_view, size_expr, size_seq, Expression, SpecExpr, Token};

pub mod asm_instructions;

verus! {

/// A defect that can never arise from a parsed tree: the generator met an
/// operator node carrying a bracket token. Generation aborts rather than
/// emit wrong code.
#[derive(Debug, Clone, Copy, PartialEq, Eq, Structural)]
pub enum InternalError {
    UnexpectedNode,
}

/// The number of loop nodes in a tree.
pub open spec fn n_loops(es: Seq<SpecExpr>) -> nat
    decreases es,
{
    if es.len() == 0 {
        0
    } else {
        (match es[0] {
            SpecExpr::Loop(children) => 1 + n_loops(children),
            SpecExpr::Op(_, _) => 0,
        }) + n_loops(es.skip(1))
    }
}

/// The name of a token kind, as it stands in the emitted comments.
pub open spec fn spec_token_name(k: Token) -> Seq<char> {
    match k {
        Token::MoveBack => "MoveBack"@,
        Token::MoveForward => "MoveForward"@,
        Token::Add => "Add"@,
        Token::Sub => "Sub"@,
        Token::StdOut => "StdOut"@,
        Token::StdIn => "StdIn"@,
        Token::LoopStart => "LoopStart"@,
        Token::LoopEnd => "LoopEnd"@,
    }
}

/// The name of a token kind as text.
fn token_name_str(k: Token) -> (r: &'static str)
    ensures
        r@ == spec_token_name(k),
{
    match k {
        Token::MoveBack => "MoveBack",
        Token::MoveForward => "MoveForward",
        Token::Add => "Add",
        Token::Sub => "Sub",
        Token::StdOut => "StdOut",
        Token::StdIn => "StdIn",
        Token::LoopStart => "LoopStart",
        Token::LoopEnd => "LoopEnd",
    }
}

/// The diagnostic comment emitted above each operator run's instructions.
pub open spec fn spec_op_comment(k: Token, c: nat) -> Seq<char> {
    "\n\t# Token::"@ + spec_token_name(k) + " | Count:"@ + dec_digits(c)
}

/// The instruction text of one operator run. Input and output runs ignore
/// the count: one event per node.
pub open spec fn spec_op_text(k: Token, c: nat) -> Seq<char> {
    match k {
        Token::MoveBack => spec_asm_cell_ptr_decrement(c),
        Token::MoveForward => spec_asm_cell_ptr_increment(c),
        Token::Add => spec_asm_cell_increment(c),
        Token::Sub => spec_asm_cell_decrement(c),
        Token::StdOut => spec_asm_print_cell(),
        Token::StdIn => spec_asm_read_to_cell(),
        Token::LoopStart => Seq::empty(),
        Token::LoopEnd => Seq::empty(),
    }
}

/// What generating one level of the tree yields.
pub struct GenOut {
    /// The level's own instruction texts, in source order.
    pub instrs: Seq<Seq<char>>,
    /// The labelled loop-body texts of the level's subtrees, in the order
    /// they stand in the final program.
    pub blocks: Seq<Seq<char>>,
    /// The next free loop identifier after the level.
    pub next_id: nat,
    /// Whether an input operator occurs in the level's subtree.
    pub used_stdin: bool,
    /// Whether an output operator occurs in the level's subtree.
    pub used_stdout: bool,
    /// Whether every operator node carried a non-bracket kind.
    pub ok: bool,
    /// The loop identifiers assigned in the level's subtree, in pre-order.
    pub ids: Seq<nat>,
}

/// Generate one level of the tree at nesting depth `depth`, with `next_id`
/// the next free loop identifier.
pub open spec fn gen_seq(es: Seq<SpecExpr>, depth: nat, next_id: nat) -> GenOut
    decreases es,
{
    if es.len() == 0 {
        GenOut {
            instrs: Seq::empty(),
            blocks: Seq::empty(),
            next_id,
            used_stdin: false,
            used_stdout: false,
            ok: true,
            ids: Seq::empty(),
        }
    } else {
        match es[0] {
            SpecExpr::Loop(children) => {
                let child = gen_seq(children, depth + 1, next_id + 1);
                let rest = gen_seq(es.skip(1), depth, child.next_id);
                GenOut {
                    instrs: seq![spec_asm_loop_call(depth, next_id)] + rest.instrs,
                    blocks: rest.blocks + seq![spec_asm_loop_name(depth, next_id)] + child.instrs
                        + seq![spec_asm_loop_end(depth, next_id)] + child.blocks,
                    next_id: rest.next_id,
                    used_stdin: child.used_stdin || rest.used_stdin,
                    used_stdout: child.used_stdout || rest.used_stdout,
                    ok: child.ok && rest.ok,
                    ids: seq![next_id] + child.ids + rest.ids,
                }
            },
            SpecExpr::Op(k, c) => {
                let rest = gen_seq(es.skip(1), depth, next_id);
                GenOut {
                    instrs: seq![spec_op_comment(k, c), spec_op_text(k, c)] + rest.instrs,
                    blocks: rest.blocks,
                    next_id: rest.next_id,
                    used_stdin: k == Token::StdIn || rest.used_stdin,
                    used_stdout: k == Token::StdOut || rest.used_stdout,
                    ok: is_op_token(k) && rest.ok,
                    ids: rest.ids,
                }
            },
        }
    }
}

/// Generation assigns one identifier per loop node: the next free identifier
/// after a level is the starting one plus the level's loop count.
pub proof fn lemma_gen_next_id(es: Seq<SpecExpr>, depth: nat, next_id: nat)
    ensures
        gen_seq(es, depth, next_id).next_id == next_id + n_loops(es),
    decreases es,
{
    if es.len() > 0 {
        match es[0] {
            SpecExpr::Loop(children) => {
                lemma_gen_next_id(children, depth + 1, next_id + 1);
                lemma_gen_next_id(
                    es.skip(1),
                    depth,
                    gen_seq(children, depth + 1, next_id + 1).next_id,
                );
            },
            SpecExpr::Op(_, _) => {
                lemma_gen_next_id(es.skip(1), depth, next_id);
            },
        }
    }
}

/// The texts of a sequence of strings.
pub open spec fn views_of(ss: Seq<String>) -> Seq<Seq<char>> {
    Seq::new(ss.len(), |i: int| ss[i]@)
}

/// Appending a string appends its text.
proof fn lemma_views_push(ss: Seq<String>, s: String)
    ensures
        views_of(ss.push(s)) =~= views_of(ss).push(s@),
{
}

/// Concatenating string sequences concatenates their texts.
proof fn lemma_views_concat(a: Seq<String>, b: Seq<String>)
    ensures
        views_of(a + b) =~= views_of(a) + views_of(b),
{
}

/// One text from a sequence of texts, all run together.
pub open spec fn flat_seqs(ss: Seq<Seq<char>>) -> Seq<char>
    decreases ss.len(),
{
    if ss.len() == 0 {
        Seq::empty()
    } else {
        flat_seqs(ss.drop_last()) + ss.last()
    }
}

/// Flattening distributes over concatenation.
pub proof fn lemma_flat_concat(a: Seq<Seq<char>>, b: Seq<Seq<char>>)
    ensures
        flat_seqs(a + b) == flat_seqs(a) + flat_seqs(b),
    decreases b.len(),
{
    if b.len() == 0 {
        assert(a + b =~= a);
        assert(flat_seqs(a) + Seq::<char>::empty() =~= flat_seqs(a));
    } else {
        assert((a + b).drop_last() =~= a + b.drop_last());
        assert((a + b).last() == b.last());
        lemma_flat_concat(a, b.drop_last());
        assert((flat_seqs(a) + flat_seqs(b.drop_last())) + b.last() =~= flat_seqs(a) + (flat_seqs(
            b.drop_last(),
        ) + b.last()));
    }
}

/// The ordered fragment texts of the main flow: the data section, the
/// prompt declaration when input is used, the entry fragment, the top
/// level's instructions, and the exit fragment.
pub open spec fn spec_main_flow(es: Seq<SpecExpr>) -> Seq<Seq<char>> {
    let g = gen_seq(es, 0, 1);
    (if g.used_stdin {
        seq![spec_asm_data_init(), spec_asm_stdin_init(), spec_asm_main_init()]
    } else {
        seq![spec_asm_data_init(), spec_asm_main_init()]
    }) + g.instrs + seq![spec_asm_exit()]
}

/// The complete output text of a generated program: the main flow followed
/// by the collected loop bodies.
pub open spec fn spec_output(es: Seq<SpecExpr>) -> Seq<char> {
    flat_seqs(spec_main_flow(es) + gen_seq(es, 0, 1).blocks)
}

/// The context of one code generation: the two ordered fragment lists, the
/// loop identifier counter, and the input/output usage flags.
pub struct AsmContext {
    /// The main flow of the program, in final order.
    main_func: Vec<String>,
    /// All loop bodies of the program, in final order.
    loop_func: Vec<String>,
    /// The next loop identifier to assign.
    loop_uuid: usize,
    /// Whether the program reads from the console.
    used_stdin: bool,
    /// Whether the program writes to the console.
    used_stdout: bool,
}

impl AsmContext {
    /// Whether the context is ready for one generation: empty fragment
    /// lists, the loop counter at its first value, no usage recorded.
    pub closed spec fn is_fresh(&self) -> bool {
        &&& self.main_func@.len() == 0
        &&& self.loop_func@.len() == 0
        &&& self.loop_uuid == 1
        &&& !self.used_stdin
        &&& !self.used_stdout
    }

    /// A context ready to generate one program.
    pub fn new() -> (r: AsmContext)
        ensures
            r.is_fresh(),
    {
        AsmContext {
            main_func: Vec::new(),
            loop_func: Vec::new(),
            loop_uuid: 1,
            used_stdin: false,
            used_stdout: false,
        }
    }

    /// Take the next unused loop identifier.
    fn assign_loop_uuid(&mut self) -> (r: usize)
        requires
            old(self).loop_uuid < usize::MAX,
        ensures
            r == old(self).loop_uuid,
            final(self).loop_uuid == old(self).loop_uuid + 1,
            final(self).main_func == old(self).main_func,
            final(self).loop_func == old(self).loop_func,
            final(self).used_stdin == old(self).used_stdin,
            final(self).used_stdout == old(self).used_stdout,
    {
        self.loop_uuid = self.loop_uuid + 1;
        self.loop_uuid - 1
    }

    /// Generate the instructions of one level of the tree, at nesting depth
    /// `loop_depth`. The level's own instructions are returned; the loop
    /// bodies of its subtrees are prepended to the loop-body list, block by
    /// block as each completes.
    #[verifier::loop_isolation(false)]
    fn gen_level(&mut self, expression: &Vec<Expression>, loop_depth: usize) -> (r: Result<
        Vec<String>,
        InternalError,
    >)
        requires
            old(self).loop_uuid + n_loops(seq_view(expression@)) <= usize::MAX,
            loop_depth < old(self).loop_uuid,
        ensures
            final(self).main_func == old(self).main_func,
            match r {
                Ok(instrs) => ({
                    let g = gen_seq(
                        seq_view(expression@),
                        loop_depth as nat,
                        old(self).loop_uuid as nat,
                    );
                    &&& g.ok
                    &&& views_of(instrs@) == g.instrs
                    &&& final(self).loop_uuid as nat == g.next_id
                    &&& views_of(final(self).loop_func@) == g.blocks + views_of(
                        old(self).loop_func@,
                    )
                    &&& final(self).used_stdin == (old(self).used_stdin || g.used_stdin)
                    &&& final(self).used_stdout == (old(self).used_stdout || g.used_stdout)
                    &&& loop_depth < final(self).loop_uuid
                }),
                Err(e) => !gen_seq(
                    seq_view(expression@),
                    loop_depth as nat,
                    old(self).loop_uuid as nat,
                ).ok && e == InternalError::UnexpectedNode,
            },
        decreases size_seq(seq_view(expression@)),
    {
        let ghost es = seq_view(expression@);
        let ghost depth = loop_depth as nat;
        let ghost u0 = old(self).loop_uuid as nat;
        let ghost lf0 = old(self).loop_func@;
        let mut instructions: Vec<String> = Vec::new();
        let mut i: usize = 0;
        proof {
            assert(es.skip(0) =~= es);
            assert(views_of(instructions@) + gen_seq(es, depth, u0).instrs =~= gen_seq(
                es,
                depth,
                u0,
            ).instrs);
        }
        while i < expression.len()
            invariant
                i <= expression@.len(),
                self.main_func == old(self).main_func,
                self.loop_uuid + n_loops(es.skip(i as int)) <= usize::MAX,
                loop_depth < self.loop_uuid,
                ({
                    let g0 = gen_seq(es, depth, u0);
                    let gi = gen_seq(es.skip(i as int), depth, self.loop_uuid as nat);
                    &&& g0.ok == gi.ok
                    &&& g0.instrs == views_of(instructions@) + gi.instrs
                    &&& g0.next_id == gi.next_id
                    &&& g0.blocks + views_of(lf0) == gi.blocks + views_of(self.loop_func@)
                    &&& (old(self).used_stdin || g0.used_stdin) == (self.used_stdin
                        || gi.used_stdin)
                    &&& (old(self).used_stdout || g0.used_stdout) == (self.used_stdout
                        || gi.used_stdout)
                }),
            decreases expression@.len() - i,
        {
            let ghost u_pre = self.loop_uuid as nat;
            let ghost gi_pre = gen_seq(es.skip(i as int), depth, u_pre);
            let ghost iv0 = instructions@;
            let ghost lf_pre = self.loop_func@;
            proof {
                assert(es.skip(i as int)[0] == es[i as int]);
                assert(es.skip(i as int).skip(1) =~= es.skip(i as int + 1));
            }
            match &expression[i] {
                Expression::Loop(children) => {
                    let ghost ch = seq_view(children@);
                    let ghost g_child = gen_seq(ch, depth + 1, u_pre + 1);
                    let ghost g_rest = gen_seq(es.skip(i as int + 1), depth, g_child.next_id);
                    proof {
                        assert(es[i as int] == SpecExpr::Loop(ch));
                        assert(n_loops(es.skip(i as int)) == 1 + n_loops(ch) + n_loops(
                            es.skip(i as int + 1),
                        ));
                        lemma_gen_next_id(ch, depth + 1, u_pre + 1);
                        assert(size_seq(es.skip(i as int)) == size_expr(es[i as int]) + size_seq(
                            es.skip(i as int + 1),
                        ));
                        lemma_size_skip_le(es, i as int);
                    }
                    let loop_id = self.assign_loop_uuid();
                    let call_line = asm_loop_call(loop_depth, loop_id);
                    proof {
                        lemma_views_push(iv0, call_line);
                        assert(views_of(iv0) + (seq![spec_asm_loop_call(depth, u_pre)]
                            + g_rest.instrs) =~= views_of(iv0.push(call_line)) + g_rest.instrs);
                    }
                    instructions.push(call_line);
                    let child_instrs = match self.gen_level(children, loop_depth + 1) {
                        Ok(v) => v,
                        Err(e) => {
                            return Err(e);
                        },
                    };
                    let ghost lf_after_child = self.loop_func@;
                    let mut block: Vec<String> = Vec::new();
                    let name_line = asm_loop_name(loop_depth, loop_id);
                    block.push(name_line);
                    let ghost b1 = block@;
                    let ghost civ = child_instrs@;
                    let mut child_owned = child_instrs;
                    block.append(&mut child_owned);
                    let ghost b2 = block@;
                    let end_line = asm_loop_end(loop_depth, loop_id);
                    block.push(end_line);
                    let ghost b3 = block@;
                    block.append(&mut self.loop_func);
                    let ghost b4 = block@;
                    core::mem::swap(&mut self.loop_func, &mut block);
                    proof {
                        lemma_views_concat(b1, civ);
                        lemma_views_push(b2, end_line);
                        lemma_views_concat(b3, lf_after_child);
                        assert(views_of(b1) =~= seq![spec_asm_loop_name(depth, u_pre)]);
                        assert(views_of(self.loop_func@) == views_of(b3) + views_of(
                            lf_after_child,
                        ));
                        assert(g_rest.blocks + views_of(self.loop_func@) =~= gi_pre.blocks
                            + views_of(lf_pre));
                    }
                },
                Expression::Operator(op) => {
                    let ghost g_rest = gen_seq(es.skip(i as int + 1), depth, u_pre);
                    proof {
                        assert(es[i as int] == SpecExpr::Op(op.kind, op.count as nat));
                        assert(n_loops(es.skip(i as int)) == n_loops(es.skip(i as int + 1)));
                        assert(size_seq(es.skip(i as int)) == size_expr(es[i as int]) + size_seq(
                            es.skip(i as int + 1),
                        ));
                    }
                    let mut comment = String::from_str("\n\t# Token::");
                    comment.append(token_name_str(op.kind));
                    comment.append(" | Count:");
                    let count_text = dec_string(op.count);
                    comment.append(count_text.as_str());
                    let text = match op.kind {
                        Token::MoveBack => asm_cell_ptr_decrement(op.count),
                        Token::MoveForward => asm_cell_ptr_increment(op.count),
                        Token::Add => asm_cell_increment(op.count),
                        Token::Sub => asm_cell_decrement(op.count),
                        Token::StdOut => {
                            self.used_stdout = true;
                            asm_print_cell()
                        },
                        Token::StdIn => {
                            self.used_stdin = true;
                            asm_read_to_cell()
                        },
                        Token::LoopStart => {
                            return Err(InternalError::UnexpectedNode);
                        },
                        Token::LoopEnd => {
                            return Err(InternalError::UnexpectedNode);
                        },
                    };
                    proof {
                        assert(comment@ == spec_op_comment(op.kind, op.count as nat));
                        assert(text@ == spec_op_text(op.kind, op.count as nat));
                        lemma_views_push(iv0, comment);
                        lemma_views_push(iv0.push(comment), text);
                        assert(views_of(iv0) + (seq![
                            spec_op_comment(op.kind, op.count as nat),
                            spec_op_text(op.kind, op.count as nat),
                        ] + g_rest.instrs) =~= views_of(iv0.push(comment).push(text))
                            + g_rest.instrs);
                    }
                    instructions.push(comment);
                    instructions.push(text);
                },
            }
            i = i + 1;
        }
        proof {
            assert(es.skip(i as int) =~= Seq::<SpecExpr>::empty());
            assert(views_of(instructions@) + Seq::<Seq<char>>::empty() =~= views_of(
                instructions@,
            ));
            assert(gen_seq(es, depth, u0).blocks + views_of(lf0) =~= views_of(self.loop_func@));
        }
        Ok(instructions)
    }

    /// Prepend to the main flow, in this fixed order, the data section, the
    /// prompt declaration when the program reads input, and the entry
    /// fragment; append the termination fragment at its end.
    fn inject_helper_functions(&mut self)
        ensures
            final(self).loop_func == old(self).loop_func,
            final(self).loop_uuid == old(self).loop_uuid,
            final(self).used_stdin == old(self).used_stdin,
            final(self).used_stdout == old(self).used_stdout,
            views_of(final(self).main_func@) == (if old(self).used_stdin {
                seq![spec_asm_data_init(), spec_asm_stdin_init(), spec_asm_main_init()]
            } else {
                seq![spec_asm_data_init(), spec_asm_main_init()]
            }) + views_of(old(self).main_func@) + seq![spec_asm_exit()],
    {
        let ghost m0 = self.main_func@;
        self.main_func.insert(0, asm_main_init());
        let ghost m1 = self.main_func@;
        proof {
            assert(views_of(m1) =~= seq![spec_asm_main_init()] + views_of(m0));
        }
        if self.used_stdin {
            self.main_func.insert(0, asm_stdin_init());
            let ghost m2 = self.main_func@;
            proof {
                assert(views_of(m2) =~= seq![spec_asm_stdin_init()] + views_of(m1));
            }
        }
        let ghost m2 = self.main_func@;
        self.main_func.insert(0, asm_data_init());
        let ghost m3 = self.main_func@;
        proof {
            assert(views_of(m3) =~= seq![spec_asm_data_init()] + views_of(m2));
        }
        self.main_func.push(asm_exit());
        proof {
            assert(views_of(self.main_func@) =~= views_of(m3).push(spec_asm_exit()));
            if old(self).used_stdin {
                assert(views_of(self.main_func@) =~= (seq![
                    spec_asm_data_init(),
                    spec_asm_stdin_init(),
                    spec_asm_main_init(),
                ]) + views_of(m0) + seq![spec_asm_exit()]);
            } else {
                assert(views_of(self.main_func@) =~= (seq![
                    spec_asm_data_init(),
                    spec_asm_main_init(),
                ]) + views_of(m0) + seq![spec_asm_exit()]);
            }
        }
    }

    /// Concatenate all main-flow fragments in order, then all loop-body
    /// fragments in their accumulated order, into one program text.
    #[verifier::loop_isolation(false)]
    fn serialize(&self) -> (r: String)
        ensures
            r@ == flat_seqs(views_of(self.main_func@) + views_of(self.loop_func@)),
    {
        let mut out = String::new();
        let mut i: usize = 0;
        proof {
            assert(views_of(self.main_func@).take(0) =~= Seq::<Seq<char>>::empty());
        }
        while i < self.main_func.len()
            invariant
                i <= self.main_func@.len(),
                out@ == flat_seqs(views_of(self.main_func@).take(i as int)),
            decreases self.main_func@.len() - i,
        {
            proof {
                assert(views_of(self.main_func@).take(i as int + 1).drop_last() =~= views_of(
                    self.main_func@,
                ).take(i as int));
                assert(views_of(self.main_func@).take(i as int + 1).last() == self.main_func@[
                    i as int
                ]@);
            }
            out.append(self.main_func[i].as_str());
            i = i + 1;
        }
        proof {
            assert(views_of(self.main_func@).take(self.main_func@.len() as int) =~= views_of(
                self.main_func@,
            ));
            assert(views_of(self.loop_func@).take(0) =~= Seq::<Seq<char>>::empty());
            assert(out@ + Seq::<char>::empty() =~= out@);
        }
        let ghost main_text = flat_seqs(views_of(self.main_func@));
        let mut j: usize = 0;
        while j < self.loop_func.len()
            invariant
                j <= self.loop_func@.len(),
                out@ == main_text + flat_seqs(views_of(self.loop_func@).take(j as int)),
            decreases self.loop_func@.len() - j,
        {
            proof {
                assert(views_of(self.loop_func@).take(j as int + 1).drop_last() =~= views_of(
                    self.loop_func@,
                ).take(j as int));
                assert(views_of(self.loop_func@).take(j as int + 1).last() == self.loop_func@[
                    j as int
                ]@);
                assert((main_text + flat_seqs(views_of(self.loop_func@).take(j as int)))
                    + self.loop_func@[j as int]@ =~= main_text + (flat_seqs(
                    views_of(self.loop_func@).take(j as int),
                ) + self.loop_func@[j as int]@));
            }
            out.append(self.loop_func[j].as_str());
            j = j + 1;
        }
        proof {
            assert(views_of(self.loop_func@).take(self.loop_func@.len() as int) =~= views_of(
                self.loop_func@,
            ));
            lemma_flat_concat(views_of(self.main_func@), views_of(self.loop_func@));
        }
        out
    }

    /// Generate the complete program text of the given tree: the main flow
    /// with its scaffolding, then the loop bodies. Fails exactly when an
    /// operator node carries a bracket token, which a parsed tree never
    /// does.
    pub fn generate_asm(&mut self, syntax_tree: &Vec<Expression>) -> (r: Result<
        String,
        InternalError,
    >)
        requires
            old(self).is_fresh(),
            size_seq(seq_view(syntax_tree@)) < usize::MAX,
        ensures
            match r {
                Ok(text) => gen_seq(seq_view(syntax_tree@), 0, 1).ok && text@ == spec_output(
                    seq_view(syntax_tree@),
                ),
                Err(e) => !gen_seq(seq_view(syntax_tree@), 0, 1).ok && e
                    == InternalError::UnexpectedNode,
            },
    {
        let ghost es = seq_view(syntax_tree@);
        proof {
            lemma_n_loops_le_size(es);
        }
        let instrs = match self.gen_level(syntax_tree, 0) {
            Ok(v) => v,
            Err(e) => {
                return Err(e);
            },
        };
        let ghost g = gen_seq(es, 0, 1);
        self.main_func = instrs;
        self.inject_helper_functions();
        proof {
            assert(views_of(self.loop_func@) =~= g.blocks + views_of(Seq::<String>::empty()));
            assert(views_of(Seq::<String>::empty()) =~= Seq::<Seq<char>>::empty());
            assert(g.blocks + Seq::<Seq<char>>::empty() =~= g.blocks);
            assert(views_of(self.main_func@) == spec_main_flow(es));
        }
        let text = self.serialize();
        proof {
            assert(views_of(self.main_func@) + views_of(self.loop_func@) =~= spec_main_flow(es)
                + g.blocks);
        }
        Ok(text)
    }
}

/// A tree has no more loop nodes than nodes.
pub proof fn lemma_n_loops_le_size(es: Seq<SpecExpr>)
    ensures
        n_loops(es) <= size_seq(es),
    decreases es,
{
    if es.len() > 0 {
        assert(size_seq(es) == size_expr(es[0]) + size_seq(es.skip(1)));
        match es[0] {
            SpecExpr::Loop(children) => {
                lemma_n_loops_le_size(children);
            },
            SpecExpr::Op(_, _) => {},
        }
        lemma_n_loops_le_size(es.skip(1));
    }
}

/// Generation assigns loop identifiers in pre-order as the consecutive run
/// `next_id, next_id + 1, ...`, one per loop node.
pub proof fn lemma_loop_ids_preorder(es: Seq<SpecExpr>, depth: nat, next_id: nat)
    ensures
        gen_seq(es, depth, next_id).ids.len() == n_loops(es),
        forall|i: int|
            0 <= i < n_loops(es) ==> gen_seq(es, depth, next_id).ids[i] == next_id + i,
    decreases es,
{
    if es.len() > 0 {
        match es[0] {
            SpecExpr::Loop(children) => {
                let child = gen_seq(children, depth + 1, next_id + 1);
                lemma_loop_ids_preorder(children, depth + 1, next_id + 1);
                lemma_gen_next_id(children, depth + 1, next_id + 1);
                lemma_loop_ids_preorder(es.skip(1), depth, child.next_id);
                let ids = gen_seq(es, depth, next_id).ids;
                let rest = gen_seq(es.skip(1), depth, child.next_id);
                assert forall|i: int| 0 <= i < n_loops(es) implies ids[i] == next_id + i by {
                    if i == 0 {
                        assert(ids[0] == next_id);
                    } else if i < 1 + n_loops(children) {
                        assert(ids[i] == child.ids[i - 1]);
                    } else {
                        assert(ids[i] == rest.ids[i - 1 - n_loops(children)]);
                    }
                }
            },
            SpecExpr::Op(_, _) => {
                lemma_loop_ids_preorder(es.skip(1), depth, next_id);
            },
        }
    }
}

/// The loop identifiers assigned during generation are unique and strictly
/// increasing in pre-order traversal order, whatever the nesting depth of
/// each loop.
pub proof fn lemma_loop_ids_unique_increasing(es: Seq<SpecExpr>, depth: nat, next_id: nat)
    ensures
        forall|i: int, j: int|
            0 <= i < j < gen_seq(es, depth, next_id).ids.len() ==> gen_seq(
                es,
                depth,
                next_id,
            ).ids[i] < gen_seq(es, depth, next_id).ids[j],
{
    lemma_loop_ids_preorder(es, depth, next_id);
}

} // verus!
