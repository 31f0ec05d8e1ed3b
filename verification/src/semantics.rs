//! A bounded simulator for syntax trees: the meaning against which the
//! optimizer is held.
//!
//! A program state is a fixed 26-cell byte tape, a cell pointer, the input
//! bytes not yet read, and the ordered input/output events so far. Cell
//! values wrap modulo 256. An operation is defined only while the cell
//! pointer stays on the tape: a move that would leave it, like a read past
//! the end of the input, leaves the simulation stuck (`None`). Loops run
//! while the current cell is nonzero; `fuel` bounds the number of times any
//! loop may start another round, so the simulation of a bounded program
//! always ends.
use vstd::prelude::*;

use vstd::arithmetic::div_mod::{
    lemma_add_mod_noop, lemma_add_mod_noop_right, lemma_mod_add_multiples_vanish, lemma_mod_bound,
    lemma_mod_pos_bound, lemma_sub_mod_noop, lemma_sub_mod_noop_right,
};

use crate::grammar::{is_io_token, lemma_size_skip_le, seq_view, size_expr, size_seq, Expression, SpecExpr, Token};
use crate::parser::{lemma_run_len_le, lemma_run_len_skip, opt_seq, run_len, unit_counts};

verus! {

/// The number of cells of the tape.
pub const TAPE_LEN: usize = 26;

/// One input or output event of a simulated program, carrying its byte.
#[derive(Debug, Clone, Copy, PartialEq, Eq, Structural)]
pub enum SimEvent {
    In(u8),
    Out(u8),
}

/// The state of a simulated program.
pub struct SimState {
    /// The byte tape.
    pub tape: Seq<u8>,
    /// The cell pointer.
    pub ptr: nat,
    /// The input bytes not yet read.
    pub input: Seq<u8>,
    /// The input/output events so far, oldest first.
    pub events: Seq<SimEvent>,
}

/// The effect of one operator run of kind `k` and count `c` on a state.
pub open spec fn sim_op(k: Token, c: nat, st: SimState) -> Option<SimState> {
    match k {
        Token::MoveForward => if st.ptr + c < st.tape.len() {
            Some(SimState { ptr: st.ptr + c, ..st })
        } else {
            None
        },
        Token::MoveBack => if st.ptr >= c {
            Some(SimState { ptr: (st.ptr - c) as nat, ..st })
        } else {
            None
        },
        Token::Add => if st.ptr < st.tape.len() {
            Some(
                SimState {
                    tape: st.tape.update(
                        st.ptr as int,
                        ((st.tape[st.ptr as int] + c) % 256) as u8,
                    ),
                    ..st
                },
            )
        } else {
            None
        },
        Token::Sub => if st.ptr < st.tape.len() {
            Some(
                SimState {
                    tape: st.tape.update(
                        st.ptr as int,
                        ((st.tape[st.ptr as int] - c) % 256) as u8,
                    ),
                    ..st
                },
            )
        } else {
            None
        },
        Token::StdOut => if st.ptr < st.tape.len() {
            Some(
                SimState {
                    events: st.events + Seq::new(c, |i: int| SimEvent::Out(st.tape[st.ptr as int])),
                    ..st
                },
            )
        } else {
            None
        },
        Token::StdIn => if c == 0 {
            Some(st)
        } else if st.ptr < st.tape.len() && st.input.len() >= c {
            Some(
                SimState {
                    tape: st.tape.update(st.ptr as int, st.input[c - 1]),
                    input: st.input.skip(c as int),
                    events: st.events + Seq::new(c, |i: int| SimEvent::In(st.input[i])),
                    ..st
                },
            )
        } else {
            None
        },
        Token::LoopStart => None,
        Token::LoopEnd => None,
    }
}

/// Simulate one node: an operator run applies its effect; a loop runs its
/// children while the current cell is nonzero, spending one unit of fuel
/// per extra round.
pub open spec fn sim_expr(e: SpecExpr, st: SimState, fuel: nat) -> Option<SimState>
    decreases fuel, e,
{
    match e {
        SpecExpr::Op(k, c) => sim_op(k, c, st),
        SpecExpr::Loop(children) => if st.ptr >= st.tape.len() {
            None
        } else if st.tape[st.ptr as int] == 0 {
            Some(st)
        } else {
            match sim_seq_states(children, st, fuel) {
                None => None,
                Some(st2) => if fuel == 0 {
                    None
                } else {
                    sim_expr(e, st2, (fuel - 1) as nat)
                },
            }
        },
    }
}

/// Simulate a sequence of nodes in order.
pub open spec fn sim_seq_states(es: Seq<SpecExpr>, st: SimState, fuel: nat) -> Option<SimState>
    decreases fuel, es,
{
    if es.len() == 0 {
        Some(st)
    } else {
        match sim_expr(es[0], st, fuel) {
            None => None,
            Some(st2) => sim_seq_states(es.skip(1), st2, fuel),
        }
    }
}

/// The state a program starts in: a zeroed tape, the pointer on cell 0, the
/// given input, no events.
pub open spec fn init_state(input: Seq<u8>) -> SimState {
    SimState {
        tape: Seq::new(TAPE_LEN as nat, |i: int| 0u8),
        ptr: 0,
        input,
        events: Seq::empty(),
    }
}

/// Simulate a whole program on the given input, within the given fuel.
pub open spec fn sim_program(es: Seq<SpecExpr>, input: Seq<u8>, fuel: nat) -> Option<SimState> {
    sim_seq_states(es, init_state(input), fuel)
}

/// The executable state of a simulation.
#[derive(Debug)]
pub struct RunState {
    /// The byte tape.
    pub tape: Vec<u8>,
    /// The cell pointer.
    pub ptr: usize,
    /// The input bytes not yet read.
    pub input: Vec<u8>,
    /// The input/output events so far, oldest first.
    pub events: Vec<SimEvent>,
}

impl View for RunState {
    type V = SimState;

    open spec fn view(&self) -> SimState {
        SimState { tape: self.tape@, ptr: self.ptr as nat, input: self.input@, events: self.events@ }
    }
}

/// Apply one operator run to an executable state.
fn run_op(k: Token, c: usize, st: RunState) -> (r: Option<RunState>)
    ensures
        match r {
            Some(st2) => sim_op(k, c as nat, st@) == Some(st2@),
            None => sim_op(k, c as nat, st@) is None,
        },
{
    let mut st = st;
    match k {
        Token::MoveForward => {
            if c < st.tape.len() && st.ptr < st.tape.len() - c {
                st.ptr = st.ptr + c;
                Some(st)
            } else {
                None
            }
        },
        Token::MoveBack => {
            if st.ptr >= c {
                st.ptr = st.ptr - c;
                Some(st)
            } else {
                None
            }
        },
        Token::Add => {
            if st.ptr < st.tape.len() {
                let add: u64 = (c as u64) % 256;
                let value: u64 = st.tape[st.ptr] as u64;
                let updated: u8 = ((value + add) % 256) as u8;
                proof {
                    lemma_add_mod_noop_right(st@.tape[st@.ptr as int] as int, c as int, 256);
                    lemma_mod_pos_bound(st@.tape[st@.ptr as int] + c, 256);
                }
                st.tape.set(st.ptr, updated);
                Some(st)
            } else {
                None
            }
        },
        Token::Sub => {
            if st.ptr < st.tape.len() {
                let sub: u64 = (c as u64) % 256;
                let value: u64 = st.tape[st.ptr] as u64;
                let updated: u8 = ((value + 256 - sub) % 256) as u8;
                proof {
                    let v = st@.tape[st@.ptr as int] as int;
                    lemma_sub_mod_noop_right(v, c as int, 256);
                    lemma_mod_add_multiples_vanish(v - (c as int % 256), 256);
                    lemma_mod_bound(v - c, 256);
                    lemma_mod_pos_bound(c as int, 256);
                    assert((v + 256 - (c as int % 256)) % 256 == (v - c) % 256);
                }
                st.tape.set(st.ptr, updated);
                Some(st)
            } else {
                None
            }
        },
        Token::StdOut => {
            if st.ptr < st.tape.len() {
                let value = st.tape[st.ptr];
                let ghost tape0 = st.tape@;
                let ghost ptr0 = st.ptr;
                let ghost in0 = st.input@;
                let ghost e0 = st.events@;
                let mut j: usize = 0;
                proof {
                    assert(e0 + Seq::new(0, |i: int| SimEvent::Out(value)) =~= e0);
                }
                while j < c
                    invariant
                        j <= c,
                        st.tape@ == tape0,
                        st.ptr == ptr0,
                        st.input@ == in0,
                        value == tape0[ptr0 as int],
                        st.events@ == e0 + Seq::new(j as nat, |i: int| SimEvent::Out(value)),
                    decreases c - j,
                {
                    proof {
                        assert(e0 + Seq::new(j as nat + 1, |i: int| SimEvent::Out(value)) =~= (e0
                            + Seq::new(j as nat, |i: int| SimEvent::Out(value))).push(
                            SimEvent::Out(value),
                        ));
                    }
                    st.events.push(SimEvent::Out(value));
                    j = j + 1;
                }
                proof {
                    assert(Seq::new(c as nat, |i: int| SimEvent::Out(value)) =~= Seq::new(
                        c as nat,
                        |i: int| SimEvent::Out(tape0[ptr0 as int]),
                    ));
                }
                Some(st)
            } else {
                None
            }
        },
        Token::StdIn => {
            if c == 0 {
                Some(st)
            } else if st.ptr < st.tape.len() && st.input.len() >= c {
                let ghost tape0 = st.tape@;
                let ghost ptr0 = st.ptr;
                let ghost in0 = st.input@;
                let ghost e0 = st.events@;
                let mut j: usize = 0;
                let mut last: u8 = 0;
                proof {
                    assert(e0 + Seq::new(0, |i: int| SimEvent::In(in0[i])) =~= e0);
                    assert(in0.skip(0) =~= in0);
                }
                while j < c
                    invariant
                        j <= c,
                        c <= in0.len(),
                        st.tape@ == tape0,
                        st.ptr == ptr0,
                        st.input@ == in0.skip(j as int),
                        st.events@ == e0 + Seq::new(j as nat, |i: int| SimEvent::In(in0[i])),
                        j > 0 ==> last == in0[j as int - 1],
                    decreases c - j,
                {
                    proof {
                        assert(in0.skip(j as int).remove(0) =~= in0.skip(j as int + 1));
                        assert(in0.skip(j as int)[0] == in0[j as int]);
                        assert(e0 + Seq::new(j as nat + 1, |i: int| SimEvent::In(in0[i])) =~= (e0
                            + Seq::new(j as nat, |i: int| SimEvent::In(in0[i]))).push(
                            SimEvent::In(in0[j as int]),
                        ));
                    }
                    last = st.input.remove(0);
                    st.events.push(SimEvent::In(last));
                    j = j + 1;
                }
                st.tape.set(st.ptr, last);
                Some(st)
            } else {
                None
            }
        },
        Token::LoopStart => None,
        Token::LoopEnd => None,
    }
}

/// Simulate one node on an executable state.
#[verifier::loop_isolation(false)]
fn run_expr(e: &Expression, st: RunState, fuel: u64) -> (r: Option<RunState>)
    ensures
        match r {
            Some(st2) => sim_expr(e@, st@, fuel as nat) == Some(st2@),
            None => sim_expr(e@, st@, fuel as nat) is None,
        },
    decreases fuel, size_expr(e@), 0int,
{
    match e {
        Expression::Operator(op) => run_op(op.kind, op.count, st),
        Expression::Loop(children) => {
            let mut cur = st;
            let mut fuel_left = fuel;
            loop
                invariant
                    fuel_left <= fuel,
                    sim_expr(e@, st@, fuel as nat) == sim_expr(e@, cur@, fuel_left as nat),
                decreases fuel_left,
            {
                if cur.ptr >= cur.tape.len() {
                    return None;
                }
                if cur.tape[cur.ptr] == 0 {
                    return Some(cur);
                }
                let next = match run_seq(children, cur, fuel_left) {
                    Some(n) => n,
                    None => {
                        return None;
                    },
                };
                if fuel_left == 0 {
                    return None;
                }
                fuel_left = fuel_left - 1;
                cur = next;
            }
        },
    }
}

/// Simulate a sequence of nodes on an executable state.
#[verifier::loop_isolation(false)]
fn run_seq(es: &Vec<Expression>, st: RunState, fuel: u64) -> (r: Option<RunState>)
    ensures
        match r {
            Some(st2) => sim_seq_states(seq_view(es@), st@, fuel as nat) == Some(st2@),
            None => sim_seq_states(seq_view(es@), st@, fuel as nat) is None,
        },
    decreases fuel, size_seq(seq_view(es@)), 1int,
{
    let ghost es_view = seq_view(es@);
    let mut cur = st;
    let mut i: usize = 0;
    proof {
        assert(es_view.skip(0) =~= es_view);
    }
    while i < es.len()
        invariant
            i <= es@.len(),
            es_view == seq_view(es@),
            sim_seq_states(es_view, st@, fuel as nat) == sim_seq_states(
                es_view.skip(i as int),
                cur@,
                fuel as nat,
            ),
        decreases es@.len() - i,
    {
        proof {
            assert(es_view.skip(i as int)[0] == es_view[i as int]);
            assert(es_view.skip(i as int).skip(1) =~= es_view.skip(i as int + 1));
            assert(size_seq(es_view.skip(i as int)) == size_expr(es_view[i as int]) + size_seq(
                es_view.skip(i as int + 1),
            ));
            lemma_size_skip_le(es_view, i as int);
            assert(size_expr(es@[i as int]@) <= size_seq(es_view));
        }
        let next = match run_expr(&es[i], cur, fuel) {
            Some(n) => n,
            None => {
                return None;
            },
        };
        cur = next;
        i = i + 1;
    }
    proof {
        assert(es_view.skip(i as int) =~= Seq::<SpecExpr>::empty());
    }
    Some(cur)
}

/// Simulate a whole program on the given input, within the given fuel: the
/// final state, or nothing when the simulation gets stuck or the fuel runs
/// out.
pub fn simulate(ast: &Vec<Expression>, input: Vec<u8>, fuel: u64) -> (r: Option<RunState>)
    ensures
        match r {
            Some(st) => sim_program(seq_view(ast@), input@, fuel as nat) == Some(st@),
            None => sim_program(seq_view(ast@), input@, fuel as nat) is None,
        },
{
    let mut tape: Vec<u8> = Vec::new();
    let mut i: usize = 0;
    while i < TAPE_LEN
        invariant
            i <= TAPE_LEN,
            tape@ =~= Seq::new(i as nat, |j: int| 0u8),
        decreases TAPE_LEN - i,
    {
        proof {
            assert(Seq::new(i as nat + 1, |j: int| 0u8) =~= Seq::new(i as nat, |j: int| 0u8).push(
                0u8,
            ));
        }
        tape.push(0u8);
        i = i + 1;
    }
    let start = RunState { tape, ptr: 0, input, events: Vec::new() };
    proof {
        assert(start@.tape =~= init_state(start@.input).tape);
        assert(start@.events =~= init_state(start@.input).events);
        assert(start@ == init_state(start@.input));
    }
    run_seq(ast, start, fuel)
}

/// Applying one non-I/O operator `a + b` times is applying it `a` times and
/// then `b` more.
proof fn lemma_sim_op_split(k: Token, a: nat, b: nat, st: SimState)
    requires
        !is_io_token(k),
        k != Token::LoopStart,
        k != Token::LoopEnd,
    ensures
        sim_op(k, a + b, st) == (match sim_op(k, a, st) {
            Some(st1) => sim_op(k, b, st1),
            None => None,
        }),
{
    match k {
        Token::Add => {
            if st.ptr < st.tape.len() {
                let p = st.ptr as int;
                let v = st.tape[p] as int;
                let st1 = SimState { tape: st.tape.update(p, ((v + a) % 256) as u8), ..st };
                assert(((v + a) % 256 + b) % 256 == (v + a + b) % 256) by {
                    lemma_add_mod_noop(v + a, b as int, 256);
                    lemma_add_mod_noop_right((v + a) % 256, b as int, 256);
                    assert(((v + a) % 256) % 256 == (v + a) % 256) by {
                        lemma_mod_bound(v + a, 256);
                        lemma_mod_of_small((v + a) % 256, 256);
                    }
                }
                assert(st.tape.update(p, ((v + a) % 256) as u8).update(
                    p,
                    ((v + a + b) % 256) as u8,
                ) =~= st.tape.update(p, ((v + a + b) % 256) as u8));
                assert(sim_op(k, b, st1) == sim_op(k, a + b, st));
            }
        },
        Token::Sub => {
            if st.ptr < st.tape.len() {
                let p = st.ptr as int;
                let v = st.tape[p] as int;
                let st1 = SimState { tape: st.tape.update(p, ((v - a) % 256) as u8), ..st };
                assert(((v - a) % 256 - b) % 256 == (v - a - b) % 256) by {
                    lemma_mod_sub_combine(v - a, b as int, 256);
                }
                assert(st.tape.update(p, ((v - a) % 256) as u8).update(
                    p,
                    ((v - a - b) % 256) as u8,
                ) =~= st.tape.update(p, ((v - a - b) % 256) as u8));
                assert(sim_op(k, b, st1) == sim_op(k, a + b, st));
            }
        },
        Token::MoveForward => {
            if st.ptr + a < st.tape.len() {
                let st1 = SimState { ptr: st.ptr + a, ..st };
                assert(sim_op(k, b, st1) == sim_op(k, a + b, st));
            }
        },
        Token::MoveBack => {
            if st.ptr >= a {
                let st1 = SimState { ptr: (st.ptr - a) as nat, ..st };
                assert(sim_op(k, b, st1) == sim_op(k, a + b, st));
            }
        },
        _ => {},
    }
}

/// A value already below a positive modulus is its own remainder.
proof fn lemma_mod_of_small(x: int, m: int)
    requires
        0 <= x < m,
        0 < m,
    ensures
        x % m == x,
{
    vstd::arithmetic::div_mod::lemma_small_mod(x as nat, m as nat);
}

/// Reducing the minuend first does not change a difference's remainder:
/// `((x % m) - y) % m == (x - y) % m` for a positive modulus.
proof fn lemma_mod_sub_combine(x: int, y: int, m: int)
    requires
        0 < m,
    ensures
        (x % m - y) % m == (x - y) % m,
{
    lemma_sub_mod_noop(x, y, m);
    lemma_sub_mod_noop_right(x % m, y, m);
    lemma_mod_bound(x, m);
    lemma_mod_of_small(x % m, m);
    lemma_mod_bound(y, m);
    lemma_sub_mod_noop_right(x, y, m);
}

/// A run of `m` unit operator nodes of one non-I/O kind simulates exactly
/// like one node of count `m`.
proof fn lemma_sim_unit_run(es: Seq<SpecExpr>, k: Token, m: nat, st: SimState, fuel: nat)
    requires
        !is_io_token(k),
        k != Token::LoopStart,
        k != Token::LoopEnd,
        unit_counts(es),
        1 <= m <= run_len(es, k),
    ensures
        sim_seq_states(es, st, fuel) == (match sim_op(k, m, st) {
            Some(st2) => sim_seq_states(es.skip(m as int), st2, fuel),
            None => None,
        }),
    decreases m,
{
    lemma_run_len_le(es, k);
    assert(es.len() > 0 && es[0] == SpecExpr::Op(k, 1)) by {
        assert(run_len(es, k) > 0);
    }
    if m == 1 {
        assert(sim_expr(es[0], st, fuel) == sim_op(k, 1, st));
    } else {
        lemma_run_len_skip(es, k, 1);
        match sim_op(k, 1, st) {
            Some(st1) => {
                lemma_sim_unit_run(es.skip(1), k, (m - 1) as nat, st1, fuel);
                assert(es.skip(1).skip(m - 1) =~= es.skip(m as int));
                lemma_sim_op_split(k, 1, (m - 1) as nat, st);
            },
            None => {
                lemma_sim_op_split(k, 1, (m - 1) as nat, st);
            },
        }
    }
}

/// Unit runs are kept when front nodes are dropped.
proof fn lemma_unit_skip(es: Seq<SpecExpr>, j: int)
    requires
        0 <= j <= es.len(),
        unit_counts(es),
    ensures
        unit_counts(es.skip(j)),
    decreases j,
{
    if j > 0 {
        assert(es.skip(1).skip(j - 1) =~= es.skip(j));
        lemma_unit_skip(es.skip(1), j - 1);
    } else {
        assert(es.skip(0) =~= es);
    }
}

/// The peephole pass preserves the simulated meaning of a loop body.
proof fn lemma_opt_preserves_loop(children: Seq<SpecExpr>, st: SimState, fuel: nat)
    requires
        unit_counts(children),
    ensures
        sim_expr(SpecExpr::Loop(opt_seq(children)), st, fuel) == sim_expr(
            SpecExpr::Loop(children),
            st,
            fuel,
        ),
    decreases fuel, children, 1int,
{
    if st.ptr < st.tape.len() && st.tape[st.ptr as int] != 0 {
        lemma_opt_preserves_seq(children, st, fuel);
        match sim_seq_states(children, st, fuel) {
            Some(st2) => {
                if fuel > 0 {
                    lemma_opt_preserves_loop(children, st2, (fuel - 1) as nat);
                }
            },
            None => {},
        }
    }
}

/// The peephole pass preserves the simulated meaning of a tree of unit
/// runs: tape, pointer, remaining input and the ordered input/output events
/// come out the same, for every starting state and every fuel.
pub proof fn lemma_opt_preserves_seq(es: Seq<SpecExpr>, st: SimState, fuel: nat)
    requires
        unit_counts(es),
    ensures
        sim_seq_states(opt_seq(es), st, fuel) == sim_seq_states(es, st, fuel),
    decreases fuel, es, 0int,
{
    if es.len() > 0 {
        match es[0] {
            SpecExpr::Loop(children) => {
                let head = SpecExpr::Loop(opt_seq(children));
                let tail = opt_seq(es.skip(1));
                assert(opt_seq(es) == seq![head] + tail);
                assert((seq![head] + tail)[0] == head);
                assert((seq![head] + tail).skip(1) =~= tail);
                lemma_opt_preserves_loop(children, st, fuel);
                match sim_expr(es[0], st, fuel) {
                    Some(st2) => {
                        lemma_opt_preserves_seq(es.skip(1), st2, fuel);
                    },
                    None => {},
                }
            },
            SpecExpr::Op(k, c) => {
                assert(c == 1);
                if is_io_token(k) {
                    let head = SpecExpr::Op(k, c);
                    let tail = opt_seq(es.skip(1));
                    assert(opt_seq(es) == seq![head] + tail);
                    assert((seq![head] + tail)[0] == head);
                    assert((seq![head] + tail).skip(1) =~= tail);
                    match sim_expr(es[0], st, fuel) {
                        Some(st2) => {
                            lemma_opt_preserves_seq(es.skip(1), st2, fuel);
                        },
                        None => {},
                    }
                } else if k == Token::LoopStart || k == Token::LoopEnd {
                    let head = SpecExpr::Op(k, (c + run_len(es.skip(1), k)) as nat);
                    let tail = opt_seq(es.skip(1 + run_len(es.skip(1), k) as int));
                    lemma_run_len_le(es.skip(1), k);
                    assert(opt_seq(es) == seq![head] + tail);
                    assert((seq![head] + tail)[0] == head);
                    assert(sim_expr(head, st, fuel) is None);
                    assert(sim_expr(es[0], st, fuel) is None);
                } else {
                    let n = run_len(es.skip(1), k);
                    lemma_run_len_le(es.skip(1), k);
                    let head = SpecExpr::Op(k, (c + n) as nat);
                    let tail = opt_seq(es.skip(1 + n as int));
                    assert(opt_seq(es) == seq![head] + tail);
                    assert((seq![head] + tail)[0] == head);
                    assert((seq![head] + tail).skip(1) =~= tail);
                    assert(run_len(es, k) == 1 + n);
                    lemma_sim_unit_run(es, k, (1 + n) as nat, st, fuel);
                    lemma_unit_skip(es, 1 + n as int);
                    match sim_op(k, (1 + n) as nat, st) {
                        Some(st2) => {
                            lemma_opt_preserves_seq(es.skip(1 + n as int), st2, fuel);
                            assert(sim_expr(head, st, fuel) == sim_op(k, (1 + n) as nat, st));
                        },
                        None => {
                            assert(sim_expr(head, st, fuel) == sim_op(k, (1 + n) as nat, st));
                        },
                    }
                }
            },
        }
    } else {
        assert(opt_seq(es) =~= es);
    }
}

/// Optimizer semantic preservation: for any parsed program, simulating the
/// raw tree and the optimized tree on the same input, within the same fuel,
/// yields identical outcomes — the same tape, pointer and ordered
/// input/output events, or both stuck.
pub proof fn lemma_opt_semantics_preserved(es: Seq<SpecExpr>, input: Seq<u8>, fuel: nat)
    requires
        unit_counts(es),
    ensures
        sim_program(opt_seq(es), input, fuel) == sim_program(es, input, fuel),
{
    lemma_opt_preserves_seq(es, init_state(input), fuel);
}

} // verus!
