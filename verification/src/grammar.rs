//! The token alphabet and the syntax tree of the language.
//!
//! The grammar over the token alphabet is
//!
//! - `Expr => (Loop | Op)*`
//! - `Loop => "[" Expr "]"`
//! - `Op   => ">" | "<" | "+" | "-" | "." | ","`
//!
//! Next to the executable tree type [`Expression`] stands its mathematical
//! model [`SpecExpr`], which the contracts of the parser, the optimizer and
//! the code generator speak about.
use vstd::prelude::*;

verus! {

broadcast use vstd::std_specs::vec::axiom_vec_decreases_to_view, vstd::seq::axiom_seq_index_decreases;

/// One of the eight atomic symbols of the source language.
#[derive(Debug, Clone, Copy, PartialEq, Eq, Structural)]
pub enum Token {
    /// `<` — step the cell pointer backward.
    MoveBack,
    /// `>` — step the cell pointer forward.
    MoveForward,
    /// `+` — increment the current cell.
    Add,
    /// `-` — decrement the current cell.
    Sub,
    /// `.` — write the current cell to the output.
    StdOut,
    /// `,` — read one input byte into the current cell.
    StdIn,
    /// `[` — open a loop.
    LoopStart,
    /// `]` — close a loop.
    LoopEnd,
}

/// A run of `count` adjacent identical operations of kind `type_name`.
///
/// The kind is always one of the six non-bracket tokens, and `count` is at
/// least 1; both facts are captured by [`SpecExpr::wf`] on the model side.
#[derive(Debug, Clone, Copy, PartialEq, Eq, Structural)]
pub struct Operator {
    pub kind: Token,
    pub count: usize,
}

/// A node of the syntax tree: either a loop owning an ordered sequence of
/// children, or an operator run.
#[derive(Debug, PartialEq)]
pub enum Expression {
    Loop(Vec<Expression>),
    Operator(Operator),
}

/// The mathematical model of a syntax tree node, with unbounded counts.
pub enum SpecExpr {
    Loop(Seq<SpecExpr>),
    Op(Token, nat),
}

impl View for Expression {
    type V = SpecExpr;

    open spec fn view(&self) -> SpecExpr
        decreases self,
    {
        match self {
            Expression::Loop(children) => {
                proof {
                    assert(decreases_to!(*children => children@));
                }
                SpecExpr::Loop(seq_view(children@))
            },
            Expression::Operator(op) => SpecExpr::Op(op.kind, op.count as nat),
        }
    }
}

/// The model of a whole expression sequence.
pub open spec fn seq_view(es: Seq<Expression>) -> Seq<SpecExpr>
    decreases es,
{
    Seq::new(
        es.len(),
        |i: int|
            if 0 <= i < es.len() {
                es[i]@
            } else {
                SpecExpr::Op(Token::Add, 0)
            },
    )
}

/// Whether a token is one of the six operator kinds (everything but the two
/// brackets).
pub open spec fn is_op_token(t: Token) -> bool {
    t != Token::LoopStart && t != Token::LoopEnd
}

/// Whether a token is one of the two input/output kinds, which the optimizer
/// never merges.
pub open spec fn is_io_token(t: Token) -> bool {
    t == Token::StdOut || t == Token::StdIn
}

impl SpecExpr {
    /// Well-formedness of a tree node: operator kinds are non-bracket tokens
    /// and every run length is at least 1.
    pub open spec fn wf(self) -> bool
        decreases self,
    {
        match self {
            SpecExpr::Loop(children) => wf_seq(children),
            SpecExpr::Op(kind, count) => is_op_token(kind) && count >= 1,
        }
    }
}

/// Well-formedness of a whole expression sequence.
pub open spec fn wf_seq(es: Seq<SpecExpr>) -> bool
    decreases es,
{
    if es.len() == 0 {
        true
    } else {
        es[0].wf() && wf_seq(es.skip(1))
    }
}

/// The number of nodes in a tree, counting each loop and each operator run
/// as one.
pub open spec fn size_expr(e: SpecExpr) -> nat
    decreases e,
{
    match e {
        SpecExpr::Loop(children) => 1 + size_seq(children),
        SpecExpr::Op(_, _) => 1,
    }
}

/// The number of nodes in an expression sequence.
pub open spec fn size_seq(es: Seq<SpecExpr>) -> nat
    decreases es,
{
    if es.len() == 0 {
        0
    } else {
        size_expr(es[0]) + size_seq(es.skip(1))
    }
}

/// The node count distributes over concatenation.
pub proof fn lemma_size_concat(a: Seq<SpecExpr>, b: Seq<SpecExpr>)
    ensures
        size_seq(a + b) == size_seq(a) + size_seq(b),
    decreases a.len(),
{
    if a.len() == 0 {
        assert(a + b =~= b);
    } else {
        assert((a + b)[0] == a[0]);
        assert((a + b).skip(1) =~= a.skip(1) + b);
        lemma_size_concat(a.skip(1), b);
    }
}

/// Each node counts at least one, so a sequence is never longer than its
/// node count.
pub proof fn lemma_len_le_size(es: Seq<SpecExpr>)
    ensures
        es.len() <= size_seq(es),
    decreases es.len(),
{
    if es.len() > 0 {
        lemma_len_le_size(es.skip(1));
        assert(size_expr(es[0]) >= 1) by {
            match es[0] {
                SpecExpr::Loop(_) => {},
                SpecExpr::Op(_, _) => {},
            }
        }
    }
}

/// Dropping front nodes never raises the node count of a sequence.
pub proof fn lemma_size_skip_le(es: Seq<SpecExpr>, j: int)
    requires
        0 <= j <= es.len(),
    ensures
        size_seq(es.skip(j)) <= size_seq(es),
    decreases j,
{
    if j > 0 {
        assert(es.skip(1).skip(j - 1) =~= es.skip(j));
        lemma_size_skip_le(es.skip(1), j - 1);
    } else {
        assert(es.skip(0) =~= es);
    }
}

/// A deep copy of one node, equal in model to the original.
fn clone_expression(e: &Expression) -> (r: Expression)
    ensures
        r@ == e@,
    decreases size_expr(e@),
{
    match e {
        Expression::Loop(children) => {
            let ghost ch = seq_view(children@);
            let mut copied: Vec<Expression> = Vec::new();
            let mut i: usize = 0;
            proof {
                assert(seq_view(copied@) =~= ch.take(0));
            }
            while i < children.len()
                invariant
                    i <= children@.len(),
                    ch == seq_view(children@),
                    e@ == SpecExpr::Loop(ch),
                    seq_view(copied@) == ch.take(i as int),
                decreases children@.len() - i,
            {
                proof {
                    assert(ch.skip(i as int)[0] == ch[i as int]);
                    assert(ch.skip(i as int).skip(1) =~= ch.skip(i as int + 1));
                    assert(size_seq(ch.skip(i as int)) == size_expr(ch[i as int]) + size_seq(
                        ch.skip(i as int + 1),
                    ));
                    lemma_size_skip_le(ch, i as int);
                    assert(size_expr(children@[i as int]@) < size_expr(e@));
                }
                let copy = clone_expression(&children[i]);
                proof {
                    assert(seq_view(copied@.push(copy)) =~= seq_view(copied@).push(copy@));
                    assert(ch.take(i as int + 1) =~= ch.take(i as int).push(ch[i as int]));
                }
                copied.push(copy);
                i = i + 1;
            }
            proof {
                assert(ch.take(children@.len() as int) =~= ch);
            }
            Expression::Loop(copied)
        },
        Expression::Operator(operator) => Expression::Operator(
            Operator { kind: operator.kind, count: operator.count },
        ),
    }
}

impl Clone for Expression {
    /// A deep copy, equal in model to the original.
    fn clone(&self) -> (r: Expression)
        ensures
            r@ == self@,
    {
        clone_expression(self)
    }
}

} // verus!
