//! The parser: a token sequence to a syntax tree, by recursive descent.
//!
//! Parsing is modelled by the spec function [`parse_from`]: from a position
//! in the token sequence, each non-bracket token becomes a unit operator
//! node, a loop-start token opens a loop whose children are the parse of the
//! following tokens, and a loop-end token closes the current level. The
//! parser also computes a total instruction count, modelled by
//! [`count_instrs`]: one per operator node plus one per loop node.
use vstd::prelude::*;

use crate::grammar::{is_io_token, lemma_len_le_size, lemma_size_concat, lemma_size_skip_le, seq_view, size_expr, size_seq, wf_seq, Expression, Operator, SpecExpr, Token};
use crate::lexer::{bal_at, lex_spec, lemma_lex_success, ptr_at, sig_at, token_of_char, tokens_from, Lexer, LexicalError};

verus! {

/// The parse of the token sequence from position `i`: the nodes built until
/// the current level is closed by a loop-end token or the input ends, and
/// the position just after the tokens consumed.
///
/// The inner bound on the continuation position never alters the result (see
/// [`lemma_parse_from_bounds`]); it is there so the recursion visibly
/// terminates.
pub open spec fn parse_from(tokens: Seq<Token>, i: int) -> (Seq<SpecExpr>, int)
    decreases tokens.len() - i,
{
    if i < 0 || i >= tokens.len() {
        (Seq::empty(), i)
    } else {
        let t = tokens[i];
        if t == Token::LoopEnd {
            (Seq::empty(), i + 1)
        } else if t == Token::LoopStart {
            let (children, after_children) = parse_from(tokens, i + 1);
            let next = if after_children < i + 1 {
                i + 1
            } else if after_children > tokens.len() {
                tokens.len() as int
            } else {
                after_children
            };
            let (rest, end) = parse_from(tokens, next);
            (seq![SpecExpr::Loop(children)] + rest, end)
        } else {
            let (rest, end) = parse_from(tokens, i + 1);
            (seq![SpecExpr::Op(t, 1)] + rest, end)
        }
    }
}

/// The position after a parse stays between the starting position and the
/// end of the token sequence, and strictly advances when tokens remain.
pub proof fn lemma_parse_from_bounds(tokens: Seq<Token>, i: int)
    requires
        0 <= i <= tokens.len(),
    ensures
        i <= parse_from(tokens, i).1 <= tokens.len(),
        i < tokens.len() ==> parse_from(tokens, i).1 >= i + 1,
    decreases tokens.len() - i,
{
    if i < tokens.len() {
        let t = tokens[i];
        if t == Token::LoopEnd {
        } else if t == Token::LoopStart {
            lemma_parse_from_bounds(tokens, i + 1);
            let after_children = parse_from(tokens, i + 1).1;
            lemma_parse_from_bounds(tokens, after_children);
        } else {
            lemma_parse_from_bounds(tokens, i + 1);
        }
    }
}

/// The total instruction count of an expression sequence: one per operator
/// node plus one per loop node, which is exactly its node count.
pub open spec fn count_instrs(es: Seq<SpecExpr>) -> nat {
    size_seq(es)
}

/// The parser: consumes a token sequence and builds the syntax tree, with an
/// optional optimizing pass.
#[derive(Debug)]
pub struct Parser {
    /// The token sequence under parsing.
    tokens: Vec<Token>,
    /// The position of the next token to consume.
    parser_index: usize,
    /// Whether the tree is optimized after parsing.
    should_optimize: bool,
    /// The parsed (and optionally optimized) tree, once generated.
    syntax_tree: Option<Vec<Expression>>,
    /// The instruction count of the generated tree.
    num_of_instr: usize,
}

impl Parser {
    /// The token sequence held by the parser.
    pub closed spec fn spec_tokens(&self) -> Seq<Token> {
        self.tokens@
    }

    /// The position of the next token to consume.
    pub closed spec fn spec_index(&self) -> int {
        self.parser_index as int
    }

    /// Whether the optimizing pass is enabled.
    pub closed spec fn spec_should_optimize(&self) -> bool {
        self.should_optimize
    }

    /// The model of the held syntax tree, if one was generated.
    pub closed spec fn spec_tree(&self) -> Option<Seq<SpecExpr>> {
        match self.syntax_tree {
            Some(v) => Some(seq_view(v@)),
            None => None,
        }
    }

    /// The recorded instruction count.
    pub closed spec fn spec_num_of_instr(&self) -> int {
        self.num_of_instr as int
    }

    /// The parser's structural invariant: the parse position never passes
    /// the end of the token sequence.
    pub closed spec fn wf(&self) -> bool {
        self.parser_index <= self.tokens@.len()
    }

    /// Scan the given source text and set up a parser over its tokens. Fails
    /// exactly when the scan fails, with the scan's error.
    pub fn new(program: String, optimize: bool) -> (r: Result<Parser, LexicalError>)
        ensures
            match r {
                Ok(p) => {
                    &&& lex_spec(program@) == Ok::<Seq<Token>, LexicalError>(p.spec_tokens())
                    &&& p.wf()
                    &&& p.spec_index() == 0
                    &&& p.spec_should_optimize() == optimize
                    &&& p.spec_tree() is None
                    &&& p.spec_num_of_instr() == 0
                },
                Err(e) => lex_spec(program@) == Err::<Seq<Token>, LexicalError>(e),
            },
    {
        let lexer = match Lexer::new(program) {
            Ok(lexer) => lexer,
            Err(e) => {
                return Err(e);
            },
        };
        Ok(
            Parser {
                tokens: lexer.move_tokens(),
                parser_index: 0,
                should_optimize: optimize,
                syntax_tree: None,
                num_of_instr: 0,
            },
        )
    }

    /// Parse from the current position to the end of the current level,
    /// leaving the position just after the tokens consumed.
    fn parse_to_ast(&mut self) -> (r: Vec<Expression>)
        requires
            old(self).wf(),
        ensures
            final(self).spec_tokens() == old(self).spec_tokens(),
            final(self).spec_should_optimize() == old(self).spec_should_optimize(),
            final(self).spec_tree() == old(self).spec_tree(),
            final(self).spec_num_of_instr() == old(self).spec_num_of_instr(),
            final(self).wf(),
            final(self).spec_index() >= old(self).spec_index(),
            seq_view(r@) == parse_from(old(self).spec_tokens(), old(self).spec_index()).0,
            final(self).spec_index() == parse_from(
                old(self).spec_tokens(),
                old(self).spec_index(),
            ).1,
        decreases old(self).spec_tokens().len() - old(self).spec_index(),
    {
        let mut expressions: Vec<Expression> = Vec::new();
        let ghost toks = self.tokens@;
        let ghost start = self.parser_index as int;
        while self.parser_index < self.tokens.len()
            invariant
                toks == old(self).spec_tokens(),
                start == old(self).spec_index(),
                self.tokens@ == toks,
                self.should_optimize == old(self).spec_should_optimize(),
                self.spec_tree() == old(self).spec_tree(),
                self.num_of_instr as int == old(self).spec_num_of_instr(),
                start <= self.parser_index as int <= toks.len(),
                parse_from(toks, start).0 == seq_view(expressions@) + parse_from(
                    toks,
                    self.parser_index as int,
                ).0,
                parse_from(toks, start).1 == parse_from(toks, self.parser_index as int).1,
            decreases toks.len() - self.parser_index,
        {
            let ghost i = self.parser_index as int;
            let token = self.tokens[self.parser_index];
            self.parser_index = self.parser_index + 1;

            match token {
                Token::LoopStart => {
                    proof {
                        lemma_parse_from_bounds(toks, i + 1);
                    }
                    let children = self.parse_to_ast();
                    proof {
                        lemma_seq_view_push(
                            expressions@,
                            Expression::Loop(children),
                            SpecExpr::Loop(seq_view(children@)),
                        );
                        assert(parse_from(toks, start).0 == seq_view(
                            expressions@.push(Expression::Loop(children)),
                        ) + parse_from(toks, self.parser_index as int).0) by {
                            assert(seq_view(expressions@) + (seq![
                                SpecExpr::Loop(seq_view(children@)),
                            ] + parse_from(toks, self.parser_index as int).0) =~= seq_view(
                                expressions@,
                            ).push(SpecExpr::Loop(seq_view(children@))) + parse_from(
                                toks,
                                self.parser_index as int,
                            ).0);
                        }
                    }
                    expressions.push(Expression::Loop(children));
                },
                Token::LoopEnd => {
                    proof {
                        assert(seq_view(expressions@) + Seq::<SpecExpr>::empty() =~= seq_view(
                            expressions@,
                        ));
                    }
                    return expressions;
                },
                _ => {
                    proof {
                        lemma_seq_view_push(
                            expressions@,
                            Expression::Operator(Operator { kind: token, count: 1 }),
                            SpecExpr::Op(token, 1),
                        );
                        assert(seq_view(expressions@) + (seq![SpecExpr::Op(token, 1)] + parse_from(
                            toks,
                            self.parser_index as int,
                        ).0) =~= seq_view(expressions@).push(SpecExpr::Op(token, 1)) + parse_from(
                            toks,
                            self.parser_index as int,
                        ).0);
                    }
                    expressions.push(Expression::Operator(Operator { kind: token, count: 1 }));
                },
            }
        }
        proof {
            assert(seq_view(expressions@) + Seq::<SpecExpr>::empty() =~= seq_view(expressions@));
        }
        expressions
    }
}

/// Pushing a node onto an expression vector appends its model to the
/// sequence model.
proof fn lemma_seq_view_push(es: Seq<Expression>, e: Expression, m: SpecExpr)
    requires
        e@ == m,
    ensures
        seq_view(es.push(e)) =~= seq_view(es).push(m),
{
}

/// Dropping front nodes commutes with taking the model of a sequence.
proof fn lemma_seq_view_skip(es: Seq<Expression>, j: int)
    requires
        0 <= j <= es.len(),
    ensures
        seq_view(es.skip(j)) =~= seq_view(es).skip(j),
{
}

/// The length of the run of operator nodes of kind `k` at the front of the
/// sequence.
pub open spec fn run_len(es: Seq<SpecExpr>, k: Token) -> nat
    decreases es,
{
    if es.len() == 0 {
        0
    } else {
        match es[0] {
            SpecExpr::Op(k2, _) => if k2 == k {
                1 + run_len(es.skip(1), k)
            } else {
                0
            },
            SpecExpr::Loop(_) => 0,
        }
    }
}

/// A run is never longer than the sequence it starts.
pub proof fn lemma_run_len_le(es: Seq<SpecExpr>, k: Token)
    ensures
        run_len(es, k) <= es.len(),
    decreases es.len(),
{
    if es.len() > 0 {
        lemma_run_len_le(es.skip(1), k);
    }
}

/// Dropping the first `j` nodes of a run shortens the run by `j`.
pub proof fn lemma_run_len_skip(es: Seq<SpecExpr>, k: Token, j: int)
    requires
        0 <= j <= run_len(es, k),
    ensures
        run_len(es.skip(j), k) == run_len(es, k) - j,
    decreases j,
{
    lemma_run_len_le(es, k);
    if j > 0 {
        assert(es.skip(1).skip(j - 1) =~= es.skip(j));
        lemma_run_len_skip(es.skip(1), k, j - 1);
    } else {
        assert(es.skip(0) =~= es);
    }
}

/// The peephole pass on an expression sequence: within each nesting level,
/// a run of adjacent operator nodes of one non-I/O kind collapses into its
/// first node, whose count grows by one per collapsed node; I/O nodes and
/// loops are kept in place, and loop bodies are optimized independently.
pub open spec fn opt_seq(es: Seq<SpecExpr>) -> Seq<SpecExpr>
    decreases es,
{
    if es.len() == 0 {
        Seq::empty()
    } else {
        match es[0] {
            SpecExpr::Loop(children) => seq![SpecExpr::Loop(opt_seq(children))] + opt_seq(
                es.skip(1),
            ),
            SpecExpr::Op(k, c) => if is_io_token(k) {
                seq![SpecExpr::Op(k, c)] + opt_seq(es.skip(1))
            } else {
                let n = run_len(es.skip(1), k);
                proof {
                    lemma_run_len_le(es.skip(1), k);
                }
                seq![SpecExpr::Op(k, c + n)] + opt_seq(es.skip(1 + n as int))
            },
        }
    }
}

/// Whether every run-merge in the peephole pass stays within the machine's
/// integer range: each operator's count, plus the nodes that follow it on
/// its level, fits in `usize`.
pub open spec fn counts_fit(es: Seq<SpecExpr>) -> bool
    decreases es,
{
    if es.len() == 0 {
        true
    } else {
        (match es[0] {
            SpecExpr::Loop(children) => counts_fit(children),
            SpecExpr::Op(_, c) => c + es.len() - 1 <= usize::MAX,
        }) && counts_fit(es.skip(1))
    }
}

impl Parser {
    /// Merge consecutive same-kind non-I/O operator runs in place, scoped
    /// per nesting level.
    pub fn optimize_ast(ast: &mut Vec<Expression>)
        requires
            counts_fit(seq_view(old(ast)@)),
        ensures
            seq_view(final(ast)@) == opt_seq(seq_view(old(ast)@)),
    {
        let mut work: Vec<Expression> = Vec::new();
        core::mem::swap(ast, &mut work);
        let optimized = optimize_vec(work);
        *ast = optimized;
    }
}

/// Whether the first node of the vector is an operator of kind `k`.
fn peek_same_kind(v: &Vec<Expression>, k: Token) -> (r: bool)
    ensures
        r == (v@.len() > 0 && match seq_view(v@)[0] {
            SpecExpr::Op(k2, _) => k2 == k,
            SpecExpr::Loop(_) => false,
        }),
{
    if v.len() == 0 {
        false
    } else {
        match &v[0] {
            Expression::Operator(op) => op.kind == k,
            Expression::Loop(_) => false,
        }
    }
}

/// Dropping front nodes preserves the bound on run-merges.
proof fn lemma_counts_fit_skip(es: Seq<SpecExpr>, j: int)
    requires
        0 <= j <= es.len(),
        counts_fit(es),
    ensures
        counts_fit(es.skip(j)),
    decreases j,
{
    if j > 0 {
        assert(es.skip(1).skip(j - 1) =~= es.skip(j));
        lemma_counts_fit_skip(es.skip(1), j - 1);
    } else {
        assert(es.skip(0) =~= es);
    }
}


/// The peephole pass itself, consuming its input level.
#[verifier::loop_isolation(false)]
fn optimize_vec(input: Vec<Expression>) -> (r: Vec<Expression>)
    requires
        counts_fit(seq_view(input@)),
    ensures
        seq_view(r@) == opt_seq(seq_view(input@)),
    decreases size_seq(seq_view(input@)),
{
    let ghost orig = seq_view(input@);
    let mut input = input;
    let mut out: Vec<Expression> = Vec::new();
    proof {
        assert(seq_view(out@) + opt_seq(orig) =~= opt_seq(orig));
    }
    while input.len() > 0
        invariant
            counts_fit(seq_view(input@)),
            size_seq(seq_view(input@)) <= size_seq(orig),
            opt_seq(orig) == seq_view(out@) + opt_seq(seq_view(input@)),
        decreases input.len(),
    {
        let ghost pre_vec = input@;
        let ghost rem_pre = seq_view(input@);
        let e = input.remove(0);
        proof {
            assert(input@ =~= pre_vec.skip(1));
            lemma_seq_view_skip(pre_vec, 1);
            assert(seq_view(input@) == rem_pre.skip(1));
            assert(e@ == rem_pre[0]);
        }
        match e {
            Expression::Loop(children) => {
                proof {
                    assert(size_seq(rem_pre) == size_expr(rem_pre[0]) + size_seq(rem_pre.skip(1)));
                    assert(size_expr(rem_pre[0]) == 1 + size_seq(seq_view(children@)));
                    assert(size_seq(seq_view(children@)) < size_seq(orig));
                }
                let oc = optimize_vec(children);
                proof {
                    lemma_seq_view_push(
                        out@,
                        Expression::Loop(oc),
                        SpecExpr::Loop(opt_seq(seq_view(children@))),
                    );
                    assert(seq_view(out@) + (seq![SpecExpr::Loop(opt_seq(seq_view(children@)))]
                        + opt_seq(rem_pre.skip(1))) =~= seq_view(out@).push(
                        SpecExpr::Loop(opt_seq(seq_view(children@))),
                    ) + opt_seq(rem_pre.skip(1)));
                }
                out.push(Expression::Loop(oc));
            },
            Expression::Operator(op) => {
                if op.kind == Token::StdOut || op.kind == Token::StdIn {
                    proof {
                        lemma_seq_view_push(
                            out@,
                            Expression::Operator(op),
                            SpecExpr::Op(op.kind, op.count as nat),
                        );
                        assert(seq_view(out@) + (seq![SpecExpr::Op(op.kind, op.count as nat)]
                            + opt_seq(rem_pre.skip(1))) =~= seq_view(out@).push(
                            SpecExpr::Op(op.kind, op.count as nat),
                        ) + opt_seq(rem_pre.skip(1)));
                    }
                    out.push(Expression::Operator(op));
                } else {
                    let ghost run_start = seq_view(input@);
                    let ghost n = run_len(run_start, op.kind);
                    proof {
                        lemma_run_len_le(run_start, op.kind);
                    }
                    let mut count = op.count;
                    while peek_same_kind(&input, op.kind)
                        invariant
                            !is_io_token(op.kind),
                            n == run_len(run_start, op.kind),
                            n <= run_start.len(),
                            op.count + run_start.len() <= usize::MAX,
                            op.count <= count,
                            count - op.count <= n,
                            seq_view(input@) == run_start.skip(count - op.count),
                        decreases input.len(),
                    {
                        proof {
                            let consumed = count - op.count;
                            lemma_run_len_skip(run_start, op.kind, consumed);
                            assert(run_len(run_start.skip(consumed), op.kind) > 0);
                            let inner_pre = input@;
                            assert(seq_view(inner_pre).len() > 0);
                        }
                        let ghost inner_pre = input@;
                        let _merged = input.remove(0);
                        count = count + 1;
                        proof {
                            assert(input@ =~= inner_pre.skip(1));
                            lemma_seq_view_skip(inner_pre, 1);
                            assert(run_start.skip(count - op.count - 1).skip(1) =~= run_start.skip(
                                count - op.count,
                            ));
                        }
                    }
                    proof {
                        let consumed = count - op.count;
                        lemma_run_len_skip(run_start, op.kind, consumed);
                        if consumed < n {
                            assert(run_len(run_start.skip(consumed), op.kind) == n - consumed);
                            assert(false);
                        }
                        assert(count == op.count + n);
                        lemma_counts_fit_skip(run_start, n as int);
                        lemma_size_skip_le(run_start, n as int);
                        assert(rem_pre.skip(1).skip(n as int) =~= rem_pre.skip(1 + n as int));
                        lemma_seq_view_push(
                            out@,
                            Expression::Operator(Operator { kind: op.kind, count }),
                            SpecExpr::Op(op.kind, (op.count + n) as nat),
                        );
                        assert(seq_view(out@) + (seq![SpecExpr::Op(op.kind, (op.count + n) as nat)]
                            + opt_seq(rem_pre.skip(1 + n as int))) =~= seq_view(out@).push(
                            SpecExpr::Op(op.kind, (op.count + n) as nat),
                        ) + opt_seq(rem_pre.skip(1 + n as int)));
                    }
                    out.push(Expression::Operator(Operator { kind: op.kind, count }));
                }
            },
        }
    }
    proof {
        assert(seq_view(out@) + opt_seq(seq_view(input@)) =~= seq_view(out@));
    }
    out
}

/// Whether every operator run in a tree has count exactly 1, as the parser
/// builds them.
pub open spec fn unit_counts(es: Seq<SpecExpr>) -> bool
    decreases es,
{
    if es.len() == 0 {
        true
    } else {
        (match es[0] {
            SpecExpr::Loop(children) => unit_counts(children),
            SpecExpr::Op(_, c) => c == 1,
        }) && unit_counts(es.skip(1))
    }
}

/// The node count of a one-node sequence is the node's own count.
proof fn lemma_singleton_size(e: SpecExpr)
    ensures
        size_seq(seq![e]) == size_expr(e),
{
    assert(seq![e].skip(1) =~= Seq::<SpecExpr>::empty());
    assert(seq![e].len() == 1);
    assert(seq![e][0] == e);
    assert(size_seq(seq![e].skip(1)) == 0);
    assert(size_seq(seq![e]) == size_expr(seq![e][0]) + size_seq(seq![e].skip(1)));
}

/// A one-node sequence has unit runs when its node does.
proof fn lemma_singleton_unit(e: SpecExpr)
    requires
        match e {
            SpecExpr::Loop(children) => unit_counts(children),
            SpecExpr::Op(_, c) => c == 1,
        },
    ensures
        unit_counts(seq![e]),
{
    assert(seq![e].skip(1) =~= Seq::<SpecExpr>::empty());
    assert(seq![e].len() == 1);
    assert(seq![e][0] == e);
    assert(unit_counts(seq![e].skip(1)));
}

/// Concatenating trees of unit runs gives a tree of unit runs.
proof fn lemma_unit_concat(a: Seq<SpecExpr>, b: Seq<SpecExpr>)
    requires
        unit_counts(a),
        unit_counts(b),
    ensures
        unit_counts(a + b),
    decreases a.len(),
{
    if a.len() == 0 {
        assert(a + b =~= b);
    } else {
        assert((a + b)[0] == a[0]);
        assert((a + b).skip(1) =~= a.skip(1) + b);
        lemma_unit_concat(a.skip(1), b);
    }
}

/// The parse consumes at least one token per node built, and every run it
/// builds is a unit run.
pub proof fn lemma_parse_from_shape(tokens: Seq<Token>, i: int)
    requires
        0 <= i <= tokens.len(),
    ensures
        count_instrs(parse_from(tokens, i).0) <= parse_from(tokens, i).1 - i,
        unit_counts(parse_from(tokens, i).0),
    decreases tokens.len() - i,
{
    if i < tokens.len() {
        let t = tokens[i];
        if t == Token::LoopEnd {
        } else if t == Token::LoopStart {
            lemma_parse_from_bounds(tokens, i + 1);
            lemma_parse_from_shape(tokens, i + 1);
            let (children, after_children) = parse_from(tokens, i + 1);
            lemma_parse_from_bounds(tokens, after_children);
            lemma_parse_from_shape(tokens, after_children);
            let (rest, _) = parse_from(tokens, after_children);
            lemma_size_concat(seq![SpecExpr::Loop(children)], rest);
            lemma_singleton_size(SpecExpr::Loop(children));
            lemma_singleton_unit(SpecExpr::Loop(children));
            lemma_unit_concat(seq![SpecExpr::Loop(children)], rest);
        } else {
            lemma_parse_from_shape(tokens, i + 1);
            let (rest, _) = parse_from(tokens, i + 1);
            lemma_size_concat(seq![SpecExpr::Op(t, 1)], rest);
            lemma_singleton_size(SpecExpr::Op(t, 1));
            lemma_singleton_unit(SpecExpr::Op(t, 1));
            lemma_unit_concat(seq![SpecExpr::Op(t, 1)], rest);
        }
    }
}

/// A tree of unit runs whose node count fits the machine admits every
/// run-merge of the peephole pass.
pub proof fn lemma_unit_counts_fit(es: Seq<SpecExpr>)
    requires
        unit_counts(es),
        size_seq(es) <= usize::MAX,
    ensures
        counts_fit(es),
    decreases es,
{
    if es.len() > 0 {
        assert(size_seq(es) == size_expr(es[0]) + size_seq(es.skip(1)));
        match es[0] {
            SpecExpr::Loop(children) => {
                assert(size_expr(es[0]) == 1 + size_seq(children));
                lemma_unit_counts_fit(children);
            },
            SpecExpr::Op(_, _) => {
                lemma_len_le_size(es);
            },
        }
        lemma_unit_counts_fit(es.skip(1));
    }
}

/// The peephole pass never raises the node count of a tree.
pub proof fn lemma_opt_size_le(es: Seq<SpecExpr>)
    ensures
        size_seq(opt_seq(es)) <= size_seq(es),
    decreases es,
{
    if es.len() > 0 {
        assert(size_seq(es) == size_expr(es[0]) + size_seq(es.skip(1)));
        match es[0] {
            SpecExpr::Loop(children) => {
                lemma_opt_size_le(children);
                lemma_opt_size_le(es.skip(1));
                lemma_size_concat(seq![SpecExpr::Loop(opt_seq(children))], opt_seq(es.skip(1)));
                lemma_singleton_size(SpecExpr::Loop(opt_seq(children)));
            },
            SpecExpr::Op(k, c) => {
                if is_io_token(k) {
                    lemma_opt_size_le(es.skip(1));
                    lemma_size_concat(seq![SpecExpr::Op(k, c)], opt_seq(es.skip(1)));
                    lemma_singleton_size(SpecExpr::Op(k, c));
                } else {
                    let n = run_len(es.skip(1), k);
                    lemma_run_len_le(es.skip(1), k);
                    lemma_opt_size_le(es.skip(1 + n as int));
                    lemma_size_skip_le(es.skip(1), n as int);
                    assert(es.skip(1).skip(n as int) =~= es.skip(1 + n as int));
                    lemma_size_concat(
                        seq![SpecExpr::Op(k, (c + n) as nat)],
                        opt_seq(es.skip(1 + n as int)),
                    );
                    lemma_singleton_size(SpecExpr::Op(k, (c + n) as nat));
                    assert(size_seq(opt_seq(es)) == 1 + size_seq(opt_seq(es.skip(1 + n as int))));
                }
            },
        }
    }
}

/// Count the instructions of a generated tree; a missing tree counts 0.
#[verifier::loop_isolation(false)]
fn count_instructions(ast_tree: Option<&Vec<Expression>>) -> (r: usize)
    requires
        match ast_tree {
            Some(v) => count_instrs(seq_view(v@)) <= usize::MAX,
            None => true,
        },
    ensures
        r as nat == match ast_tree {
            Some(v) => count_instrs(seq_view(v@)),
            None => 0nat,
        },
    decreases (match ast_tree {
        Some(v) => size_seq(seq_view(v@)),
        None => 0nat,
    }),
{
    match ast_tree {
        None => 0,
        Some(v) => {
            let ghost es = seq_view(v@);
            let mut count: usize = 0;
            let mut i: usize = v.len();
            proof {
                assert(es.skip(i as int) =~= Seq::<SpecExpr>::empty());
            }
            while i > 0
                invariant
                    i <= v.len(),
                    count as nat == size_seq(es.skip(i as int)),
                decreases i,
            {
                i = i - 1;
                proof {
                    assert(es.skip(i as int)[0] == es[i as int]);
                    assert(es.skip(i as int).skip(1) =~= es.skip(i as int + 1));
                    lemma_size_skip_le(es, i as int);
                }
                match &v[i] {
                    Expression::Loop(children) => {
                        proof {
                            assert(es[i as int] == SpecExpr::Loop(seq_view(children@)));
                            assert(size_seq(es.skip(i as int)) == size_expr(es[i as int])
                                + size_seq(es.skip(i as int + 1)));
                            assert(size_expr(es[i as int]) == 1 + size_seq(seq_view(children@)));
                            assert(size_seq(seq_view(children@)) < size_seq(es));
                        }
                        let c = count_instructions(Some(children));
                        count = count + c + 1;
                    },
                    Expression::Operator(_) => {
                        proof {
                            assert(size_seq(es.skip(i as int)) == size_expr(es[i as int])
                                + size_seq(es.skip(i as int + 1)));
                            assert(size_expr(es[i as int]) == 1);
                        }
                        count = count + 1;
                    },
                }
            }
            proof {
                assert(es.skip(0) =~= es);
            }
            count
        },
    }
}

impl Parser {
    /// Parse the token sequence into the syntax tree, optimize it in place
    /// when optimization was requested, and record its instruction count.
    pub fn generate_syntax_tree(&mut self)
        requires
            old(self).wf(),
        ensures
            final(self).wf(),
            final(self).spec_tokens() == old(self).spec_tokens(),
            final(self).spec_should_optimize() == old(self).spec_should_optimize(),
            ({
                let parsed = parse_from(old(self).spec_tokens(), old(self).spec_index());
                let tree = if old(self).spec_should_optimize() {
                    opt_seq(parsed.0)
                } else {
                    parsed.0
                };
                &&& final(self).spec_tree() == Some(tree)
                &&& final(self).spec_num_of_instr() == count_instrs(tree)
                &&& final(self).spec_index() == parsed.1
            }),
    {
        let ghost toks = self.tokens@;
        let ghost start = self.parser_index as int;
        let token_total = self.tokens.len();
        proof {
            assert(toks.len() == token_total as nat);
            lemma_parse_from_bounds(toks, start);
            lemma_parse_from_shape(toks, start);
        }
        let mut ast = self.parse_to_ast();
        if self.should_optimize {
            proof {
                lemma_unit_counts_fit(seq_view(ast@));
            }
            Parser::optimize_ast(&mut ast);
            proof {
                lemma_opt_size_le(parse_from(toks, start).0);
            }
        }
        let count = count_instructions(Some(&ast));
        self.syntax_tree = Some(ast);
        self.num_of_instr = count;
    }

    /// The recorded instruction count of the generated tree.
    pub fn get_num_of_instr(&self) -> (r: usize)
        ensures
            r as int == self.spec_num_of_instr(),
    {
        self.num_of_instr
    }

    /// The generated syntax tree, if one was generated.
    pub fn get_ast(&self) -> (r: Option<&Vec<Expression>>)
        ensures
            match r {
                Some(v) => self.spec_tree() == Some(seq_view(v@)),
                None => self.spec_tree() is None,
            },
    {
        self.syntax_tree.as_ref()
    }
}

/// A level that does not begin with a kind-`k` run still does not after the
/// peephole pass.
proof fn lemma_opt_run_len_zero(s: Seq<SpecExpr>, k: Token)
    requires
        run_len(s, k) == 0,
    ensures
        run_len(opt_seq(s), k) == 0,
{
    if s.len() > 0 {
        match s[0] {
            SpecExpr::Loop(children) => {
                assert(opt_seq(s)[0] == SpecExpr::Loop(opt_seq(children)));
            },
            SpecExpr::Op(k2, c) => {
                assert(k2 != k);
                if is_io_token(k2) {
                    assert(opt_seq(s)[0] == SpecExpr::Op(k2, c));
                } else {
                    let n = run_len(s.skip(1), k2);
                    assert(opt_seq(s)[0] == SpecExpr::Op(k2, (c + n) as nat));
                }
            },
        }
    }
}

/// The peephole pass is idempotent: optimizing an already optimized tree
/// yields a structurally identical tree.
pub proof fn lemma_opt_idempotent(es: Seq<SpecExpr>)
    ensures
        opt_seq(opt_seq(es)) == opt_seq(es),
    decreases es,
{
    if es.len() > 0 {
        match es[0] {
            SpecExpr::Loop(children) => {
                let tail = opt_seq(es.skip(1));
                let head = SpecExpr::Loop(opt_seq(children));
                assert(opt_seq(es) == seq![head] + tail);
                assert((seq![head] + tail)[0] == head);
                assert((seq![head] + tail).skip(1) =~= tail);
                lemma_opt_idempotent(children);
                lemma_opt_idempotent(es.skip(1));
                assert(opt_seq(opt_seq(es)) == seq![SpecExpr::Loop(opt_seq(opt_seq(children)))]
                    + opt_seq(tail));
                assert(opt_seq(opt_seq(es)) == opt_seq(es));
            },
            SpecExpr::Op(k, c) => {
                if is_io_token(k) {
                    let tail = opt_seq(es.skip(1));
                    let head = SpecExpr::Op(k, c);
                    assert(opt_seq(es) == seq![head] + tail);
                    assert((seq![head] + tail)[0] == head);
                    assert((seq![head] + tail).skip(1) =~= tail);
                    lemma_opt_idempotent(es.skip(1));
                    assert(opt_seq(opt_seq(es)) == opt_seq(es));
                } else {
                    let n = run_len(es.skip(1), k);
                    lemma_run_len_le(es.skip(1), k);
                    let tail = opt_seq(es.skip(1 + n as int));
                    let head = SpecExpr::Op(k, (c + n) as nat);
                    let oes = seq![head] + tail;
                    assert(opt_seq(es) == oes);
                    assert(oes[0] == head);
                    assert(oes.skip(1) =~= tail);
                    lemma_run_len_skip(es.skip(1), k, n as int);
                    assert(es.skip(1).skip(n as int) =~= es.skip(1 + n as int));
                    assert(run_len(es.skip(1 + n as int), k) == 0);
                    lemma_opt_run_len_zero(es.skip(1 + n as int), k);
                    assert(run_len(tail, k) == 0);
                    let n2 = run_len(oes.skip(1), k);
                    assert(n2 == 0);
                    assert(oes.skip(1 + n2 as int) =~= tail);
                    assert(opt_seq(oes) == seq![SpecExpr::Op(k, ((c + n) + n2) as nat)] + opt_seq(
                        oes.skip(1 + n2 as int),
                    ));
                    lemma_opt_idempotent(es.skip(1 + n as int));
                    assert(opt_seq(tail) == tail);
                    assert(SpecExpr::Op(k, ((c + n) + n2) as nat) == head);
                    assert(opt_seq(opt_seq(es)) == opt_seq(es));
                }
            },
        }
    }
}

/// The bracket contribution of one token.
pub open spec fn tok_delta(t: Token) -> int {
    if t == Token::LoopStart {
        1
    } else if t == Token::LoopEnd {
        -1
    } else {
        0
    }
}

/// The bracket balance of the tokens in `[i, j)`.
pub open spec fn tbal(toks: Seq<Token>, i: int, j: int) -> int
    decreases j - i,
{
    if j <= i {
        0
    } else {
        tok_delta(toks[i]) + tbal(toks, i + 1, j)
    }
}

/// The number of loop-end tokens in `[i, j)`.
pub open spec fn num_ends(toks: Seq<Token>, i: int, j: int) -> nat
    decreases j - i,
{
    if j <= i {
        0
    } else {
        (if toks[i] == Token::LoopEnd {
            1nat
        } else {
            0nat
        }) + num_ends(toks, i + 1, j)
    }
}

/// The number of loop-start tokens in `[i, j)`.
pub open spec fn num_starts(toks: Seq<Token>, i: int, j: int) -> nat
    decreases j - i,
{
    if j <= i {
        0
    } else {
        (if toks[i] == Token::LoopStart {
            1nat
        } else {
            0nat
        }) + num_starts(toks, i + 1, j)
    }
}

/// The number of non-bracket tokens in `[i, j)`.
pub open spec fn num_op_tokens(toks: Seq<Token>, i: int, j: int) -> nat
    decreases j - i,
{
    if j <= i {
        0
    } else {
        (if toks[i] != Token::LoopStart && toks[i] != Token::LoopEnd {
            1nat
        } else {
            0nat
        }) + num_op_tokens(toks, i + 1, j)
    }
}

/// Token balance splits at any midpoint.
proof fn lemma_tbal_add(toks: Seq<Token>, i: int, k: int, j: int)
    requires
        i <= k <= j,
    ensures
        tbal(toks, i, j) == tbal(toks, i, k) + tbal(toks, k, j),
    decreases k - i,
{
    if i < k {
        lemma_tbal_add(toks, i + 1, k, j);
    }
}

/// Loop-end counting splits at any midpoint.
proof fn lemma_num_ends_add(toks: Seq<Token>, i: int, k: int, j: int)
    requires
        i <= k <= j,
    ensures
        num_ends(toks, i, j) == num_ends(toks, i, k) + num_ends(toks, k, j),
    decreases k - i,
{
    if i < k {
        lemma_num_ends_add(toks, i + 1, k, j);
    }
}

/// Every token is a loop-start, a loop-end or a non-bracket token, so the
/// three counts fill the range.
proof fn lemma_token_counts(toks: Seq<Token>, i: int, j: int)
    requires
        0 <= i <= j <= toks.len(),
    ensures
        j - i == num_op_tokens(toks, i, j) + num_starts(toks, i, j) + num_ends(toks, i, j),
    decreases j - i,
{
    if i < j {
        lemma_token_counts(toks, i + 1, j);
    }
}

/// Where a parse stops, what balance it saw on the way, and how many nodes
/// it built: the parse never sees a negative balance before stopping; it
/// stops either at the end of the input, or just after the first loop-end
/// that would drop the balance below zero; and it builds one node per
/// consumed token that is not a loop-end.
#[verifier::rlimit(50)]
pub proof fn lemma_parse_position(toks: Seq<Token>, i: int)
    requires
        0 <= i <= toks.len(),
    ensures
        ({
            let (es, j) = parse_from(toks, i);
            &&& i <= j <= toks.len()
            &&& forall|m: int| i <= m < j ==> tbal(toks, i, m) >= 0
            &&& ((j == toks.len() && tbal(toks, i, j) >= 0) || (j >= i + 1 && toks[j - 1]
                == Token::LoopEnd && tbal(toks, i, j - 1) == 0 && tbal(toks, i, j) == -1))
            &&& count_instrs(es) == (j - i) - num_ends(toks, i, j)
        }),
    decreases toks.len() - i,
{
    lemma_parse_from_bounds(toks, i);
    if i < toks.len() {
        let t = toks[i];
        if t == Token::LoopEnd {
            assert(tbal(toks, i, i) == 0);
            assert(tbal(toks, i + 1, i + 1) == 0);
            assert(tbal(toks, i, i + 1) == -1);
            assert(num_ends(toks, i + 1, i + 1) == 0);
            assert(num_ends(toks, i, i + 1) == 1);
            assert(count_instrs(parse_from(toks, i).0) == 0);
        } else if t == Token::LoopStart {
            lemma_parse_from_bounds(toks, i + 1);
            lemma_parse_position(toks, i + 1);
            let (children, j1) = parse_from(toks, i + 1);
            lemma_parse_from_bounds(toks, j1);
            lemma_parse_position(toks, j1);
            let (rest, j2) = parse_from(toks, j1);
            lemma_size_concat(seq![SpecExpr::Loop(children)], rest);
            lemma_singleton_size(SpecExpr::Loop(children));
            lemma_num_ends_add(toks, i, i + 1, j1);
            lemma_num_ends_add(toks, i, j1, j2);
            assert(num_ends(toks, i, i + 1) == 0 + num_ends(toks, i + 1, i + 1));
            assert forall|m: int| i <= m < j2 implies tbal(toks, i, m) >= 0 by {
                if m == i {
                } else if m <= j1 {
                    assert(tbal(toks, i, m) == 1 + tbal(toks, i + 1, m));
                    if m < j1 {
                        assert(tbal(toks, i + 1, m) >= 0);
                    } else {
                        lemma_tbal_add(toks, i, j1 - 1, j1);
                    }
                } else {
                    lemma_tbal_add(toks, i, j1, m);
                    assert(tbal(toks, i, j1) == 1 + tbal(toks, i + 1, j1));
                }
            }
            if j1 >= i + 2 && toks[j1 - 1] == Token::LoopEnd && tbal(toks, i + 1, j1 - 1) == 0
                && tbal(toks, i + 1, j1) == -1 {
                assert(tbal(toks, i, j1) == 1 + tbal(toks, i + 1, j1));
                lemma_tbal_add(toks, i, j1, j2);
                if j2 >= j1 + 1 && toks[j2 - 1] == Token::LoopEnd && tbal(toks, j1, j2 - 1) == 0
                    && tbal(toks, j1, j2) == -1 {
                    lemma_tbal_add(toks, i, j1, j2 - 1);
                    assert(tbal(toks, i, j2 - 1) == 0 && tbal(toks, i, j2) == -1);
                } else {
                    assert(j2 == toks.len() && tbal(toks, j1, j2) >= 0);
                    assert(tbal(toks, i, j2) >= 0);
                }
            } else {
                assert(j1 == toks.len() && tbal(toks, i + 1, j1) >= 0);
                assert(j2 == j1);
                assert(tbal(toks, i, j2) == 1 + tbal(toks, i + 1, j1));
            }
            assert(parse_from(toks, i).0 == seq![SpecExpr::Loop(children)] + rest);
            assert(parse_from(toks, i).1 == j2);
            assert(count_instrs(parse_from(toks, i).0) == 1 + count_instrs(children)
                + count_instrs(rest));
            assert(num_ends(toks, i, j2) == num_ends(toks, i + 1, j1) + num_ends(toks, j1, j2));
            assert(count_instrs(children) == (j1 - (i + 1)) - num_ends(toks, i + 1, j1));
            assert(count_instrs(rest) == (j2 - j1) - num_ends(toks, j1, j2));
            assert(count_instrs(parse_from(toks, i).0) == (j2 - i) - num_ends(toks, i, j2));
        } else {
            lemma_parse_position(toks, i + 1);
            let (rest, j) = parse_from(toks, i + 1);
            lemma_size_concat(seq![SpecExpr::Op(t, 1)], rest);
            lemma_singleton_size(SpecExpr::Op(t, 1));
            lemma_num_ends_add(toks, i, i + 1, j);
            assert forall|m: int| i <= m < j implies tbal(toks, i, m) >= 0 by {
                if m > i {
                    assert(tbal(toks, i, m) == 0 + tbal(toks, i + 1, m));
                }
            }
            assert(tbal(toks, i, j) == 0 + tbal(toks, i + 1, j));
            if j >= i + 2 && toks[j - 1] == Token::LoopEnd {
                assert(tbal(toks, i, j - 1) == 0 + tbal(toks, i + 1, j - 1));
            }
            assert(parse_from(toks, i).0 == seq![SpecExpr::Op(t, 1)] + rest);
            assert(count_instrs(parse_from(toks, i).0) == 1 + count_instrs(rest));
            assert(num_ends(toks, i, j) == 0 + num_ends(toks, i + 1, j));
            assert(count_instrs(parse_from(toks, i).0) == (j - i) - num_ends(toks, i, j));
        }
    }
}

/// A bracket-balanced token sequence parses completely: the parse consumes
/// every token, and the instruction count of the tree is the number of
/// non-bracket tokens plus one per loop.
pub proof fn lemma_parse_balanced(toks: Seq<Token>)
    requires
        forall|m: int| 0 <= m <= toks.len() ==> tbal(toks, 0, m) >= 0,
        tbal(toks, 0, toks.len() as int) == 0,
    ensures
        parse_from(toks, 0).1 == toks.len(),
        count_instrs(parse_from(toks, 0).0) == num_op_tokens(toks, 0, toks.len() as int)
            + num_starts(toks, 0, toks.len() as int),
{
    lemma_parse_position(toks, 0);
    let (es, j) = parse_from(toks, 0);
    if j >= 1 && toks[j - 1] == Token::LoopEnd && tbal(toks, 0, j) == -1 {
        assert(tbal(toks, 0, j) >= 0);
        assert(false);
    }
    assert(j == toks.len());
    lemma_token_counts(toks, 0, toks.len() as int);
    assert(tbal(toks, 0, toks.len() as int) == num_starts(toks, 0, toks.len() as int) - num_ends(
        toks,
        0,
        toks.len() as int,
    )) by {
        lemma_tbal_counts(toks, 0, toks.len() as int);
    }
}

/// The balance of a range is its loop-starts minus its loop-ends.
proof fn lemma_tbal_counts(toks: Seq<Token>, i: int, j: int)
    requires
        i <= j,
    ensures
        tbal(toks, i, j) == num_starts(toks, i, j) - num_ends(toks, i, j),
    decreases j - i,
{
    if i < j {
        lemma_tbal_counts(toks, i + 1, j);
    }
}

/// Token balances ignore a prepended token once the range starts after it.
proof fn lemma_tbal_shift(t: Token, rest: Seq<Token>, a: int, m: int)
    requires
        0 <= a <= m <= rest.len(),
    ensures
        tbal(seq![t] + rest, a + 1, m + 1) == tbal(rest, a, m),
    decreases m - a,
{
    if a < m {
        assert((seq![t] + rest)[a + 1] == rest[a]);
        lemma_tbal_shift(t, rest, a + 1, m);
    }
}

/// The token sequence of a scan carries the source's bracket balances: no
/// token prefix dips below zero when no significant loop-end outweighs the
/// loop-starts before it, and the total matches the source's net balance.
proof fn lemma_tokens_from_bal(s: Seq<char>, i: int, b: int)
    requires
        0 <= i <= s.len(),
        b >= 0,
        forall|j: int|
            i <= j < s.len() && sig_at(s, j) && s[j] == ']' ==> b + bal_at(s, j) - bal_at(s, i)
                > 0,
    ensures
        forall|m: int|
            0 <= m <= tokens_from(s, i).len() ==> b + tbal(tokens_from(s, i), 0, m) >= 0,
        tbal(tokens_from(s, i), 0, tokens_from(s, i).len() as int) == bal_at(s, s.len() as int)
            - bal_at(s, i),
    decreases s.len() - i,
{
    if i == s.len() {
        assert(bal_at(s, i) == bal_at(s, s.len() as int));
    } else {
        let c = s[i];
        let d: int = if sig_at(s, i) {
            if c == '[' {
                1
            } else if c == ']' {
                -1
            } else {
                0
            }
        } else {
            0
        };
        assert(bal_at(s, i + 1) == bal_at(s, i) + d);
        if !sig_at(s, i) {
            lemma_tokens_from_bal(s, i + 1, b);
        } else {
            let tok = token_of_char(c);
            let rest = tokens_from(s, i + 1);
            assert(tokens_from(s, i) == seq![tok] + rest);
            assert(b + d >= 0);
            lemma_tokens_from_bal(s, i + 1, b + d);
            assert((seq![tok] + rest)[0] == tok);
            assert(tok_delta(tok) == d);
            assert forall|m: int|
                0 <= m <= tokens_from(s, i).len() implies b + tbal(tokens_from(s, i), 0, m)
                >= 0 by {
                if m > 0 {
                    lemma_tbal_shift(tok, rest, 0, m - 1);
                    assert(tbal(tokens_from(s, i), 0, m) == tok_delta(tok) + tbal(
                        seq![tok] + rest,
                        1,
                        m,
                    ));
                }
            }
            lemma_tbal_shift(tok, rest, 0, rest.len() as int);
            assert(tbal(tokens_from(s, i), 0, tokens_from(s, i).len() as int) == tok_delta(tok)
                + tbal(seq![tok] + rest, 1, rest.len() as int + 1));
        }
    }
}


/// The number of significant non-bracket symbols from `i` on.
pub open spec fn num_sig_ops(s: Seq<char>, i: int) -> nat
    decreases s.len() - i,
{
    if i < 0 || i >= s.len() {
        0
    } else {
        (if sig_at(s, i) && s[i] != '[' && s[i] != ']' {
            1nat
        } else {
            0nat
        }) + num_sig_ops(s, i + 1)
    }
}

/// The number of significant loop-start symbols from `i` on.
pub open spec fn num_sig_starts(s: Seq<char>, i: int) -> nat
    decreases s.len() - i,
{
    if i < 0 || i >= s.len() {
        0
    } else {
        (if sig_at(s, i) && s[i] == '[' {
            1nat
        } else {
            0nat
        }) + num_sig_starts(s, i + 1)
    }
}

/// Token counting ignores a prepended token once the range starts after it.
proof fn lemma_counts_shift(t: Token, rest: Seq<Token>, a: int)
    requires
        0 <= a <= rest.len(),
    ensures
        num_op_tokens(seq![t] + rest, a + 1, rest.len() as int + 1) == num_op_tokens(
            rest,
            a,
            rest.len() as int,
        ),
        num_starts(seq![t] + rest, a + 1, rest.len() as int + 1) == num_starts(
            rest,
            a,
            rest.len() as int,
        ),
    decreases rest.len() - a,
{
    if a < rest.len() {
        assert((seq![t] + rest)[a + 1] == rest[a]);
        lemma_counts_shift(t, rest, a + 1);
    }
}

/// The token sequence of a scan has one non-bracket token per significant
/// non-bracket symbol, and one loop-start token per significant `[`.
proof fn lemma_tokens_from_counts(s: Seq<char>, i: int)
    requires
        0 <= i <= s.len(),
    ensures
        num_op_tokens(tokens_from(s, i), 0, tokens_from(s, i).len() as int) == num_sig_ops(s, i),
        num_starts(tokens_from(s, i), 0, tokens_from(s, i).len() as int) == num_sig_starts(s, i),
    decreases s.len() - i,
{
    if i < s.len() {
        lemma_tokens_from_counts(s, i + 1);
        if sig_at(s, i) {
            let tok = token_of_char(s[i]);
            let rest = tokens_from(s, i + 1);
            assert(tokens_from(s, i) == seq![tok] + rest);
            assert((seq![tok] + rest)[0] == tok);
            lemma_counts_shift(tok, rest, 0);
            assert((tok != Token::LoopStart && tok != Token::LoopEnd) == (s[i] != '[' && s[i]
                != ']'));
            assert((tok == Token::LoopStart) == (s[i] == '['));
        }
    }
}

/// For any source whose brackets are balanced, whose pointer simulation
/// never goes negative, and whose other characters are only whitespace and
/// comments, lexing then parsing succeeds: the scan yields the tokens of
/// the significant characters, the parse consumes them all, and the
/// instruction count is the number of non-bracket tokens plus one per
/// loop.
pub proof fn lemma_lex_parse_count(s: Seq<char>)
    requires
        forall|j: int| 0 <= j < s.len() && sig_at(s, j) && s[j] == ']' ==> bal_at(s, j) > 0,
        forall|j: int| 0 <= j < s.len() && sig_at(s, j) && s[j] == '<' ==> ptr_at(s, j) > 0,
        bal_at(s, s.len() as int) == 0,
    ensures
        lex_spec(s) == Ok::<Seq<Token>, LexicalError>(tokens_from(s, 0)),
        parse_from(tokens_from(s, 0), 0).1 == tokens_from(s, 0).len(),
        count_instrs(parse_from(tokens_from(s, 0), 0).0) == num_sig_ops(s, 0) + num_sig_starts(
            s,
            0,
        ),
{
    lemma_lex_success(s);
    lemma_tokens_from_bal(s, 0, 0);
    assert(bal_at(s, 0) == 0);
    lemma_parse_balanced(tokens_from(s, 0));
    lemma_tokens_from_counts(s, 0);
}

/// A one-node sequence is well-formed when its node is.
proof fn lemma_wf_singleton(e: SpecExpr)
    requires
        e.wf(),
    ensures
        wf_seq(seq![e]),
{
    assert(seq![e].skip(1) =~= Seq::<SpecExpr>::empty());
    assert(seq![e][0] == e);
    assert(wf_seq(seq![e].skip(1)));
}

/// Concatenating well-formed trees gives a well-formed tree.
proof fn lemma_wf_concat(a: Seq<SpecExpr>, b: Seq<SpecExpr>)
    requires
        wf_seq(a),
        wf_seq(b),
    ensures
        wf_seq(a + b),
    decreases a.len(),
{
    if a.len() == 0 {
        assert(a + b =~= b);
    } else {
        assert((a + b)[0] == a[0]);
        assert((a + b).skip(1) =~= a.skip(1) + b);
        lemma_wf_concat(a.skip(1), b);
    }
}

/// The parser only builds well-formed trees: every operator node carries a
/// non-bracket kind and a count of at least 1.
pub proof fn lemma_parse_wf(toks: Seq<Token>, i: int)
    requires
        0 <= i <= toks.len(),
    ensures
        wf_seq(parse_from(toks, i).0),
    decreases toks.len() - i,
{
    if i < toks.len() {
        let t = toks[i];
        if t == Token::LoopEnd {
        } else if t == Token::LoopStart {
            lemma_parse_from_bounds(toks, i + 1);
            lemma_parse_wf(toks, i + 1);
            let (children, after_children) = parse_from(toks, i + 1);
            lemma_parse_from_bounds(toks, after_children);
            lemma_parse_wf(toks, after_children);
            let (rest, _) = parse_from(toks, after_children);
            assert(SpecExpr::Loop(children).wf());
            lemma_wf_singleton(SpecExpr::Loop(children));
            lemma_wf_concat(seq![SpecExpr::Loop(children)], rest);
        } else {
            lemma_parse_wf(toks, i + 1);
            let (rest, _) = parse_from(toks, i + 1);
            assert(SpecExpr::Op(t, 1).wf());
            lemma_wf_singleton(SpecExpr::Op(t, 1));
            lemma_wf_concat(seq![SpecExpr::Op(t, 1)], rest);
        }
    }
}

/// The peephole pass keeps the tree well-formed: a run-merge never produces
/// a zero-count node, never changes a kind, and never deletes a loop node.
pub proof fn lemma_opt_wf(es: Seq<SpecExpr>)
    requires
        wf_seq(es),
    ensures
        wf_seq(opt_seq(es)),
    decreases es,
{
    if es.len() > 0 {
        match es[0] {
            SpecExpr::Loop(children) => {
                assert(es[0].wf() && wf_seq(es.skip(1)));
                assert(wf_seq(children));
                lemma_opt_wf(children);
                lemma_opt_wf(es.skip(1));
                assert(SpecExpr::Loop(opt_seq(children)).wf());
                lemma_wf_singleton(SpecExpr::Loop(opt_seq(children)));
                lemma_wf_concat(seq![SpecExpr::Loop(opt_seq(children))], opt_seq(es.skip(1)));
            },
            SpecExpr::Op(k, c) => {
                assert(es[0].wf() && wf_seq(es.skip(1)));
                if is_io_token(k) {
                    lemma_opt_wf(es.skip(1));
                    lemma_wf_singleton(SpecExpr::Op(k, c));
                    lemma_wf_concat(seq![SpecExpr::Op(k, c)], opt_seq(es.skip(1)));
                } else {
                    let n = run_len(es.skip(1), k);
                    lemma_run_len_le(es.skip(1), k);
                    lemma_wf_skip(es, 1 + n as int);
                    lemma_opt_wf(es.skip(1 + n as int));
                    assert(SpecExpr::Op(k, (c + n) as nat).wf());
                    lemma_wf_singleton(SpecExpr::Op(k, (c + n) as nat));
                    lemma_wf_concat(
                        seq![SpecExpr::Op(k, (c + n) as nat)],
                        opt_seq(es.skip(1 + n as int)),
                    );
                }
            },
        }
    }
}

/// Well-formedness is kept when front nodes are dropped.
proof fn lemma_wf_skip(es: Seq<SpecExpr>, j: int)
    requires
        0 <= j <= es.len(),
        wf_seq(es),
    ensures
        wf_seq(es.skip(j)),
    decreases j,
{
    if j > 0 {
        assert(es.skip(1).skip(j - 1) =~= es.skip(j));
        lemma_wf_skip(es.skip(1), j - 1);
    } else {
        assert(es.skip(0) =~= es);
    }
}

} // verus!

