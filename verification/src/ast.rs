use vstd::prelude::*;

verus! {

/// One operator of the tape-machine language. A `Loop` owns its body by
/// value, so every tree is acyclic; each `Loop` corresponds to one matched
/// bracket pair in the source.
#[derive(Debug, PartialEq)]
pub enum BfOperator {
    /// `>`: move the pointer one cell to the right.
    PointerInc,
    /// `<`: move the pointer one cell to the left.
    PointerDec,
    /// `+`: wrapping increment of the addressed cell.
    Add,
    /// `-`: wrapping decrement of the addressed cell.
    Sub,
    /// `.`: append the addressed cell, read as a character code, to the output.
    Output,
    /// `,`: read one byte of input (inert in the interpreter).
    Input,
    /// `[` ... `]`: run the body while the addressed cell is nonzero.
    Loop(Vec<BfOperator>),
}

/// The mathematical shape of an operator tree: the same seven cases, with
/// loop bodies as sequences. Contracts and the spec-level semantics speak
/// of this type.
#[verifier::ext_equal]
pub enum OpModel {
    PointerInc,
    PointerDec,
    Add,
    Sub,
    Output,
    Input,
    Loop(Seq<OpModel>),
}

impl BfOperator {
    /// The tree this operator stands for, with loop bodies as sequences.
    pub open spec fn model(self) -> OpModel
        decreases self,
    {
        match self {
            BfOperator::PointerInc => OpModel::PointerInc,
            BfOperator::PointerDec => OpModel::PointerDec,
            BfOperator::Add => OpModel::Add,
            BfOperator::Sub => OpModel::Sub,
            BfOperator::Output => OpModel::Output,
            BfOperator::Input => OpModel::Input,
            BfOperator::Loop(body) => {
                proof {
                    assert(decreases_to!(body => body@));
                }
                OpModel::Loop(ops_model(body@))
            },
        }
    }
}

/// The nesting height of an operator tree: simple operators have height
/// one; a loop is one higher than its deepest body operator.
pub open spec fn op_height(op: BfOperator) -> nat
    decreases op,
{
    match op {
        BfOperator::Loop(body) => {
            proof {
                assert(decreases_to!(body => body@));
            }
            1 + ops_height(body@)
        },
        _ => 1,
    }
}

/// The greatest height among a sequence of operators; zero when empty.
pub open spec fn ops_height(ops: Seq<BfOperator>) -> nat
    decreases ops,
{
    if ops.len() == 0 {
        0
    } else {
        proof {
            assert(decreases_to!(ops => ops[0]));
            assert(decreases_to!(ops => ops.subrange(1, ops.len() as int)));
        }
        let h0 = op_height(ops[0]);
        let hr = ops_height(ops.subrange(1, ops.len() as int));
        if h0 > hr {
            h0
        } else {
            hr
        }
    }
}

/// Every operator of a sequence is at most the sequence's height.
pub proof fn lemma_ops_height(ops: Seq<BfOperator>)
    ensures
        forall|i: int| 0 <= i < ops.len() ==> #[trigger] op_height(ops[i]) <= ops_height(ops),
    decreases ops.len(),
{
    if ops.len() > 0 {
        let tail = ops.subrange(1, ops.len() as int);
        lemma_ops_height(tail);
        assert forall|i: int| 0 <= i < ops.len() implies #[trigger] op_height(ops[i])
            <= ops_height(ops) by {
            if i > 0 {
                assert(tail[i - 1] == ops[i]);
                assert(op_height(tail[i - 1]) <= ops_height(tail));
            }
        }
    }
}

/// The models of a sequence of operators, in order.
pub open spec fn ops_model(ops: Seq<BfOperator>) -> Seq<OpModel>
    decreases ops,
{
    if ops.len() == 0 {
        Seq::empty()
    } else {
        proof {
            assert(decreases_to!(ops => ops[0]));
            assert(decreases_to!(ops => ops.subrange(1, ops.len() as int)));
        }
        seq![ops[0].model()] + ops_model(ops.subrange(1, ops.len() as int))
    }
}

/// `ops_model` maps the sequence pointwise.
pub proof fn lemma_ops_model(ops: Seq<BfOperator>)
    ensures
        ops_model(ops).len() == ops.len(),
        forall|i: int| 0 <= i < ops.len() ==> ops_model(ops)[i] == #[trigger] ops[i].model(),
    decreases ops.len(),
{
    if ops.len() > 0 {
        let tail = ops.subrange(1, ops.len() as int);
        lemma_ops_model(tail);
        assert forall|i: int| 0 <= i < ops.len() implies ops_model(ops)[i]
            == #[trigger] ops[i].model() by {
            if i > 0 {
                assert(tail[i - 1] == ops[i]);
                assert(ops_model(ops)[i] == ops_model(tail)[i - 1]);
            }
        }
    }
}

/// Appending one operator appends its model.
pub proof fn lemma_ops_model_push(ops: Seq<BfOperator>, op: BfOperator)
    ensures
        ops_model(ops.push(op)) =~= ops_model(ops).push(op.model()),
{
    lemma_ops_model(ops.push(op));
    lemma_ops_model(ops);
    assert forall|i: int| 0 <= i < ops.len() + 1 implies ops_model(ops.push(op))[i]
        == ops_model(ops).push(op.model())[i] by {
        assert(ops_model(ops.push(op))[i] == ops.push(op)[i].model());
        if i < ops.len() {
            assert(ops.push(op)[i] == ops[i]);
            assert(ops_model(ops)[i] == ops[i].model());
        } else {
            assert(ops.push(op)[i] == op);
        }
    }
}

} // verus!
