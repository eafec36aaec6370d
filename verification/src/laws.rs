use vstd::prelude::*;
use crate::ast::OpModel;
use crate::machine::{
    init_machine, run_op, run_ops, Backend, Machine, VmFault,
};
use crate::parser::{
    is_op_char, lemma_raw_tokens, parse_step, parse_upto, raw_tokens, spec_parse, spec_tokenize,
    spec_tokenize_upto, Token,
};
use crate::script::{spec_script, MacroArg, ScriptSource};

verus! {

/// Whether an operator tree is free of input operators.
pub open spec fn no_input_op(op: OpModel) -> bool
    decreases op,
{
    match op {
        OpModel::Input => false,
        OpModel::Loop(body) => no_input_ops(body),
        _ => true,
    }
}

/// Whether a whole operator sequence is free of input operators.
pub open spec fn no_input_ops(ops: Seq<OpModel>) -> bool
    decreases ops,
{
    if ops.len() == 0 {
        true
    } else {
        proof {
            assert(decreases_to!(ops => ops[0]));
            assert(decreases_to!(ops => ops.subrange(1, ops.len() as int)));
        }
        no_input_op(ops[0]) && no_input_ops(ops.subrange(1, ops.len() as int))
    }
}

/// How the two backends relate on one input-free operator, from the same
/// state: a completed generated run is matched exactly by the interpreter; a
/// pointer fault is matched exactly; an out-of-bounds fault of the generated
/// code carries no claim (the interpreter grows its tape there instead); and
/// an exhausted budget is shared.
pub proof fn lemma_backends_agree_op(m: Machine, op: OpModel, fuel: nat)
    requires
        no_input_op(op),
    ensures
        match run_op(Backend::Gen, m, op, fuel) {
            None => run_op(Backend::Interp, m, op, fuel) == None::<Result<Machine, VmFault>>,
            Some(Ok(m2)) => run_op(Backend::Interp, m, op, fuel) == Some(
                Ok::<Machine, VmFault>(m2),
            ),
            Some(Err(f)) => f == VmFault::OutOfBounds || run_op(Backend::Interp, m, op, fuel)
                == Some(Err::<Machine, VmFault>(f)),
        },
    decreases fuel, op,
{
    match op {
        OpModel::Loop(body) => {
            assert(decreases_to!(op => body));
            if m.pointer >= m.mem.len() {
                // the generated loop test itself faults; no claim is made
            } else if crate::machine::cell_read(m) == 0 {
            } else if fuel == 0 {
            } else {
                lemma_backends_agree_ops(m, body, fuel);
                match run_ops(Backend::Gen, m, body, fuel) {
                    None => {},
                    Some(Err(f)) => {},
                    Some(Ok(m2)) => {
                        lemma_backends_agree_op(m2, op, (fuel - 1) as nat);
                    },
                }
            }
        },
        _ => {},
    }
}

/// How the two backends relate on an input-free operator sequence; see
/// `lemma_backends_agree_op`.
pub proof fn lemma_backends_agree_ops(m: Machine, ops: Seq<OpModel>, fuel: nat)
    requires
        no_input_ops(ops),
    ensures
        match run_ops(Backend::Gen, m, ops, fuel) {
            None => run_ops(Backend::Interp, m, ops, fuel) == None::<Result<Machine, VmFault>>,
            Some(Ok(m2)) => run_ops(Backend::Interp, m, ops, fuel) == Some(
                Ok::<Machine, VmFault>(m2),
            ),
            Some(Err(f)) => f == VmFault::OutOfBounds || run_ops(Backend::Interp, m, ops, fuel)
                == Some(Err::<Machine, VmFault>(f)),
        },
    decreases fuel, ops,
{
    if ops.len() > 0 {
        assert(decreases_to!(ops => ops[0]));
        assert(decreases_to!(ops => ops.subrange(1, ops.len() as int)));
        lemma_backends_agree_op(m, ops[0], fuel);
        match run_op(Backend::Gen, m, ops[0], fuel) {
            None => {},
            Some(Err(f)) => {},
            Some(Ok(m2)) => {
                lemma_backends_agree_ops(m2, ops.subrange(1, ops.len() as int), fuel);
            },
        }
    }
}

/// For an input-free program, whenever the generated code's run completes,
/// the interpreter's run from the same state completes in the very same
/// state — the same output, tape and pointer.
pub proof fn lemma_interp_matches_generated(m: Machine, ops: Seq<OpModel>, fuel: nat, out: Machine)
    requires
        no_input_ops(ops),
        run_ops(Backend::Gen, m, ops, fuel) == Some(Ok::<Machine, VmFault>(out)),
    ensures
        run_ops(Backend::Interp, m, ops, fuel) == Some(Ok::<Machine, VmFault>(out)),
{
    lemma_backends_agree_ops(m, ops, fuel);
}

/// An input-free program that faults in the interpreter faults in the
/// generated code too: with the very same fault, unless the generated code's
/// fixed tape was overrun first, which is its own fatal fault.
pub proof fn lemma_interp_fault_faults_generated(
    m: Machine,
    ops: Seq<OpModel>,
    fuel: nat,
    f: VmFault,
)
    requires
        no_input_ops(ops),
        run_ops(Backend::Interp, m, ops, fuel) == Some(Err::<Machine, VmFault>(f)),
    ensures
        match run_ops(Backend::Gen, m, ops, fuel) {
            Some(Err(g)) => g == f || g == VmFault::OutOfBounds,
            _ => false,
        },
{
    lemma_backends_agree_ops(m, ops, fuel);
    match run_ops(Backend::Gen, m, ops, fuel) {
        None => {
            assert(false);
        },
        Some(Ok(m2)) => {
            assert(false);
        },
        Some(Err(g)) => {},
    }
}

/// The two backends can diverge where the pointer passes the configured
/// tape length on the positive side: on the program `>+` with one cell and
/// no negative offset, the interpreter completes, growing its tape
/// transparently, while the generated code faults on its fixed tape.
pub proof fn lemma_growth_divergence()
    ensures
        ({
            let m = init_machine(1, 0, Seq::empty());
            let ops = seq![OpModel::PointerInc, OpModel::Add];
            &&& run_ops(Backend::Gen, m, ops, 0) == Some(
                Err::<Machine, VmFault>(VmFault::OutOfBounds),
            )
            &&& (run_ops(Backend::Interp, m, ops, 0) matches Some(Ok(m2)) && m2.mem.len() == 2)
        }),
{
    let m = init_machine(1, 0, Seq::empty());
    let ops = seq![OpModel::PointerInc, OpModel::Add];
    let m1 = Machine { pointer: 1, ..m };
    assert(m.mem.len() == 1);
    assert(run_op(Backend::Gen, m, ops[0], 0) == Some(Ok::<Machine, VmFault>(m1)));
    assert(run_op(Backend::Interp, m, ops[0], 0) == Some(Ok::<Machine, VmFault>(m1)));
    let rest = ops.subrange(1, 2);
    assert(rest[0] == OpModel::Add);
    assert(rest.subrange(1, 1) =~= Seq::<OpModel>::empty());
    assert(run_op(Backend::Gen, m1, OpModel::Add, 0) == Some(
        Err::<Machine, VmFault>(VmFault::OutOfBounds),
    ));
    let m2 = crate::machine::with_cell(m1, crate::machine::cell_read(m1).wrapping_add(1));
    assert(run_op(Backend::Interp, m1, OpModel::Add, 0) == Some(Ok::<Machine, VmFault>(m2)));
    assert(m2.mem.len() == 2);
    assert(run_ops(Backend::Gen, m1, rest, 0) == Some(
        Err::<Machine, VmFault>(VmFault::OutOfBounds),
    ));
    assert(run_ops(Backend::Gen, m, ops, 0) == Some(
        Err::<Machine, VmFault>(VmFault::OutOfBounds),
    ));
    assert(run_ops(Backend::Interp, m1, rest, 0) == Some(Ok::<Machine, VmFault>(m2)));
    assert(run_ops(Backend::Interp, m2, rest.subrange(1, 1), 0) == Some(
        Ok::<Machine, VmFault>(m2),
    ));
    assert(run_ops(Backend::Interp, m, ops, 0) == Some(Ok::<Machine, VmFault>(m2)));
}

/// Reading the first `n` tokens of `ts` is blind to tokens pushed after.
proof fn lemma_parse_upto_push(ts: Seq<Token>, t: Token, n: int)
    requires
        0 <= n <= ts.len(),
    ensures
        parse_upto(ts.push(t), n) == parse_upto(ts, n),
    decreases n,
{
    if n > 0 {
        lemma_parse_upto_push(ts, t, n - 1);
        assert(ts.push(t)[n - 1] == ts[n - 1]);
    }
}

/// After any prefix of the source, parsing the lexer's tokens and parsing
/// the bare characters reach the same parser state.
proof fn lemma_tokenize_vs_raw_upto(s: Seq<char>, n: int)
    requires
        0 <= n <= s.len(),
    ensures
        parse_upto(spec_tokenize_upto(s, n), spec_tokenize_upto(s, n).len() as int) == parse_upto(
            raw_tokens(s),
            n,
        ),
    decreases n,
{
    lemma_raw_tokens(s);
    if n > 0 {
        lemma_tokenize_vs_raw_upto(s, n - 1);
        let prev = spec_tokenize_upto(s, n - 1);
        let cur = spec_tokenize_upto(s, n);
        if is_op_char(s[n - 1]) {
            let tok = (s[n - 1], (n - 1) as usize);
            assert(cur == prev.push(tok));
            assert(cur.len() == prev.len() + 1);
            assert(cur[prev.len() as int] == tok);
            lemma_parse_upto_push(prev, tok, prev.len() as int);
            assert(parse_upto(cur, cur.len() as int) == parse_step(
                parse_upto(cur, prev.len() as int),
                tok,
            ));
            assert(raw_tokens(s)[n - 1] == tok);
        } else {
            assert(cur == prev);
            assert(parse_step(parse_upto(raw_tokens(s), n - 1), raw_tokens(s)[n - 1])
                == parse_upto(raw_tokens(s), n - 1));
        }
    }
}

/// Re-tokenizing a string literal and parsing the same characters as a bare
/// operator stream yield the same parse: structurally identical trees, and
/// the same rejection when a bracket is unmatched.
pub proof fn lemma_literal_and_raw_parse_agree(s: Seq<char>)
    ensures
        spec_parse(spec_tokenize(s)) == spec_parse(raw_tokens(s)),
{
    lemma_raw_tokens(s);
    lemma_tokenize_vs_raw_upto(s, s.len() as int);
}

/// The same source text yields the same program whether it arrives as a
/// string literal or as a bare operator stream, under any configuration.
pub proof fn lemma_literal_raw_same_script(args: Seq<MacroArg>, lit: String, raw: String)
    requires
        lit@ == raw@,
    ensures
        spec_script(args, ScriptSource::Literal(lit)) == spec_script(
            args,
            ScriptSource::RawOps(raw),
        ),
{
    lemma_literal_and_raw_parse_agree(lit@);
}

} // verus!
