use vstd::prelude::*;
use crate::ast::{
    lemma_ops_height, lemma_ops_model, op_height, ops_height, ops_model, BfOperator, OpModel,
};
use crate::script::{BfScript, ScriptModel};
use vstd::string::StringExecFns;

verus! {

/// The character of a decimal digit.
pub open spec fn digit_char(d: nat) -> char {
    ((48 + (d % 10)) as u8) as char
}

/// The decimal digits of `n`, most significant first.
pub open spec fn dec_str(n: nat) -> Seq<char>
    decreases n,
{
    if n < 10 {
        seq![digit_char(n)]
    } else {
        dec_str(n / 10).push(digit_char(n % 10))
    }
}

/// Renders a machine-sized integer in decimal.
pub fn usize_to_string(n: usize) -> (s: String)
    ensures
        s@ == dec_str(n as nat),
    decreases n,
{
    if n < 10 {
        let mut s = String::new();
        s.push((48u8 + n as u8) as char);
        proof {
            assert(s@ =~= dec_str(n as nat));
        }
        s
    } else {
        let mut s = usize_to_string(n / 10);
        s.push((48u8 + (n % 10) as u8) as char);
        proof {
            assert(s@ =~= dec_str(n as nat));
        }
        s
    }
}

/// The host statements one operator lowers to. A loop becomes a native
/// pre-tested `while` over the addressed cell; an input operator becomes a
/// real, blocking one-byte read at the host's run time.
pub open spec fn code_of_op(op: OpModel) -> Seq<char>
    decreases op,
{
    match op {
        OpModel::PointerInc => "pointer += 1;\n"@,
        OpModel::PointerDec => "pointer -= 1;\n"@,
        OpModel::Add => "let cell = &mut mem[pointer];\n*cell = cell.wrapping_add(1);\n"@,
        OpModel::Sub => "let cell = &mut mem[pointer];\n*cell = cell.wrapping_sub(1);\n"@,
        OpModel::Output => "result.push(mem[pointer] as char);\n"@,
        OpModel::Input => {
            "let mut buffer = [0_u8];\nstd::io::stdin().read_exact(&mut buffer).expect(\"error with stdin during bf.\");\nlet char_byte = buffer[0];\n"@
        },
        OpModel::Loop(body) => "while mem[pointer] != 0 {\n"@ + code_of_ops(body) + "}\n"@,
    }
}

/// The host statements a sequence of operators lowers to, in order.
pub open spec fn code_of_ops(ops: Seq<OpModel>) -> Seq<char>
    decreases ops,
{
    if ops.len() == 0 {
        Seq::empty()
    } else {
        proof {
            assert(decreases_to!(ops => ops[0]));
            assert(decreases_to!(ops => ops.subrange(1, ops.len() as int)));
        }
        code_of_op(ops[0]) + code_of_ops(ops.subrange(1, ops.len() as int))
    }
}

/// Lowering a concatenation lowers each part in order.
pub proof fn lemma_code_of_ops_concat(a: Seq<OpModel>, b: Seq<OpModel>)
    ensures
        code_of_ops(a + b) =~= code_of_ops(a) + code_of_ops(b),
    decreases a.len(),
{
    if a.len() == 0 {
        assert(a + b =~= b);
        assert(code_of_ops(a) =~= Seq::empty());
    } else {
        let tail = a.subrange(1, a.len() as int);
        lemma_code_of_ops_concat(tail, b);
        assert((a + b)[0] == a[0]);
        assert((a + b).subrange(1, (a + b).len() as int) =~= tail + b);
    }
}

/// Lowering one more operator appends its statements.
pub proof fn lemma_code_take_step(ops: Seq<OpModel>, i: int)
    requires
        0 <= i < ops.len(),
    ensures
        code_of_ops(ops.subrange(0, i + 1)) =~= code_of_ops(ops.subrange(0, i)) + code_of_op(
            ops[i],
        ),
{
    lemma_code_of_ops_concat(ops.subrange(0, i), seq![ops[i]]);
    assert(ops.subrange(0, i + 1) =~= ops.subrange(0, i) + seq![ops[i]]);
    let single = seq![ops[i]];
    assert(single.subrange(1, 1) =~= Seq::<OpModel>::empty());
    assert(code_of_ops(Seq::<OpModel>::empty()) =~= Seq::empty());
    assert(code_of_ops(single) =~= code_of_op(ops[i]));
}

/// Lowers a sequence of operators to host statements, appended to `out` in
/// order, one or more statements per operator.
pub fn ops_to_token(ops: &Vec<BfOperator>, out: &mut String)
    ensures
        final(out)@ == old(out)@ + code_of_ops(ops_model(ops@)),
    decreases ops_height(ops@),
{
    let ghost ms = ops_model(ops@);
    let ghost out0 = out@;
    proof {
        lemma_ops_model(ops@);
        lemma_ops_height(ops@);
    }
    let mut k: usize = 0;
    while k < ops.len()
        invariant
            k <= ops@.len(),
            ms == ops_model(ops@),
            out0 == old(out)@,
            ms.len() == ops@.len(),
            forall|j: int| 0 <= j < ops@.len() ==> #[trigger] ms[j] == ops@[j].model(),
            forall|j: int| 0 <= j < ops@.len() ==> #[trigger] op_height(ops@[j]) <= ops_height(
                ops@,
            ),
            out@ == out0 + code_of_ops(ms.subrange(0, k as int)),
        decreases ops@.len() - k,
    {
        let ghost before = out@;
        match &ops[k] {
            BfOperator::PointerInc => out.append("pointer += 1;\n"),
            BfOperator::PointerDec => out.append("pointer -= 1;\n"),
            BfOperator::Add => out.append(
                "let cell = &mut mem[pointer];\n*cell = cell.wrapping_add(1);\n",
            ),
            BfOperator::Sub => out.append(
                "let cell = &mut mem[pointer];\n*cell = cell.wrapping_sub(1);\n",
            ),
            BfOperator::Output => out.append("result.push(mem[pointer] as char);\n"),
            BfOperator::Input => out.append(
                "let mut buffer = [0_u8];\nstd::io::stdin().read_exact(&mut buffer).expect(\"error with stdin during bf.\");\nlet char_byte = buffer[0];\n",
            ),
            BfOperator::Loop(body) => {
                out.append("while mem[pointer] != 0 {\n");
                proof {
                    assert(op_height(ops@[k as int]) == 1 + ops_height(body@));
                }
                ops_to_token(body, out);
                out.append("}\n");
                proof {
                    assert(ms[k as int] == OpModel::Loop(ops_model(body@)));
                    assert(out@ =~= before + code_of_op(ms[k as int]));
                }
            },
        }
        proof {
            assert(out@ =~= before + code_of_op(ms[k as int]));
            lemma_code_take_step(ms, k as int);
            assert(out@ =~= out0 + code_of_ops(ms.subrange(0, k + 1)));
        }
        k = k + 1;
    }
    proof {
        assert(ms.subrange(0, ms.len() as int) =~= ms);
    }
}

/// The whole block a program lowers to: a zeroed fixed-length tape, the
/// pointer at the configured offset, an empty accumulator, the lowered
/// operators, and the accumulator as the block's value.
pub open spec fn code_of_script(m: ScriptModel) -> Seq<char> {
    "{\nuse std::io::Read;\nlet mut mem: ::std::vec::Vec<u8> = ::std::vec![0; "@ + dec_str(
        m.cells + m.negative_ptrs,
    ) + "];\nlet mut pointer: usize = "@ + dec_str(m.negative_ptrs)
        + ";\nlet mut result = ::std::string::String::new();\n"@ + code_of_ops(m.script)
        + "result\n}\n"@
}

impl BfScript {
    /// Lowers the program to a self-contained block of host statements,
    /// appended to `tokens`: not an evaluated value, but source text whose
    /// run-time behavior the generated-code semantics describes. The tape is
    /// fixed-size here, unlike the interpreter's lazily growing tape.
    pub fn to_tokens(&self, tokens: &mut String)
        requires
            self.cells + self.negative_ptrs <= usize::MAX,
        ensures
            final(tokens)@ == old(tokens)@ + code_of_script(self.model()),
    {
        let total_size = self.cells + self.negative_ptrs;
        tokens.append("{\nuse std::io::Read;\nlet mut mem: ::std::vec::Vec<u8> = ::std::vec![0; ");
        let ts = usize_to_string(total_size);
        tokens.append(ts.as_str());
        tokens.append("];\nlet mut pointer: usize = ");
        let np = usize_to_string(self.negative_ptrs);
        tokens.append(np.as_str());
        tokens.append(";\nlet mut result = ::std::string::String::new();\n");
        ops_to_token(&self.script, tokens);
        tokens.append("result\n}\n");
        proof {
            assert(tokens@ =~= old(tokens)@ + code_of_script(self.model()));
        }
    }
}

} // verus!
