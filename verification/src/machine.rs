use vstd::prelude::*;
use crate::ast::OpModel;

verus! {

/// A fatal condition of a run: none of these is recovered, and a faulting
/// run yields no partial output.
#[derive(Clone, Copy, Debug, PartialEq, Eq, Structural)]
pub enum VmFault {
    /// The pointer was decremented while at physical index zero.
    PointerUnderflow,
    /// The pointer left the machine's representable index range.
    PointerOverflow,
    /// Generated code addressed a cell outside its fixed-size tape.
    OutOfBounds,
    /// Generated code tried to read a byte of input and none was available.
    InputFailed,
}

/// Which backend's semantics a run follows. The two differ in exactly three
/// points: the interpreter grows its tape on a write past the end and reads
/// zero past the end, where generated code faults; and an input operator is
/// inert in the interpreter, where generated code consumes one input byte.
#[derive(Clone, Copy, Debug, PartialEq, Eq, Structural)]
pub enum Backend {
    Interp,
    Gen,
}

/// The state of one execution: the output gathered so far, the tape, the
/// pointer, and the input not yet consumed. The interpreter never touches
/// `input`.
#[verifier::ext_equal]
pub struct Machine {
    pub result: Seq<char>,
    pub mem: Seq<u8>,
    pub pointer: nat,
    pub input: Seq<u8>,
}

/// The state every run starts from: a zeroed tape of `cells + negative_ptrs`
/// cells, with the pointer on the cell at logical address zero.
pub open spec fn init_machine(cells: nat, negative_ptrs: nat, input: Seq<u8>) -> Machine {
    Machine {
        result: Seq::empty(),
        mem: Seq::new(cells + negative_ptrs, |i: int| 0u8),
        pointer: negative_ptrs,
        input,
    }
}

/// The addressed cell, reading zero past the end of the tape.
pub open spec fn cell_read(m: Machine) -> u8 {
    if m.pointer < m.mem.len() {
        m.mem[m.pointer as int]
    } else {
        0u8
    }
}

/// The tape extended with zero cells so that the pointer is in range.
pub open spec fn grown_mem(m: Machine) -> Seq<u8> {
    if m.pointer < m.mem.len() {
        m.mem
    } else {
        m.mem + Seq::new((m.pointer + 1 - m.mem.len()) as nat, |i: int| 0u8)
    }
}

/// The machine with the addressed cell set to `v`, growing the tape if the
/// pointer is past the end.
pub open spec fn with_cell(m: Machine, v: u8) -> Machine {
    Machine { mem: grown_mem(m).update(m.pointer as int, v), ..m }
}

/// The outcome of a run: `None` when the iteration budget ran out before the
/// program finished, otherwise the final state or the fault that ended it.
pub type RunOutcome = Option<Result<Machine, VmFault>>;

/// One operator under backend `b`, with `fuel` bounding loop iteration.
/// Simple operators never consume fuel; each iteration of a loop costs one
/// unit for that loop's re-test.
pub open spec fn run_op(b: Backend, m: Machine, op: OpModel, fuel: nat) -> RunOutcome
    decreases fuel, op,
{
    match op {
        OpModel::PointerInc => {
            if m.pointer >= usize::MAX {
                Some(Err(VmFault::PointerOverflow))
            } else {
                Some(Ok(Machine { pointer: m.pointer + 1, ..m }))
            }
        },
        OpModel::PointerDec => {
            if m.pointer == 0 {
                Some(Err(VmFault::PointerUnderflow))
            } else {
                Some(Ok(Machine { pointer: (m.pointer - 1) as nat, ..m }))
            }
        },
        OpModel::Add => {
            if b == Backend::Gen && m.pointer >= m.mem.len() {
                Some(Err(VmFault::OutOfBounds))
            } else if m.pointer >= m.mem.len() && m.pointer >= usize::MAX {
                Some(Err(VmFault::PointerOverflow))
            } else {
                Some(Ok(with_cell(m, cell_read(m).wrapping_add(1))))
            }
        },
        OpModel::Sub => {
            if b == Backend::Gen && m.pointer >= m.mem.len() {
                Some(Err(VmFault::OutOfBounds))
            } else if m.pointer >= m.mem.len() && m.pointer >= usize::MAX {
                Some(Err(VmFault::PointerOverflow))
            } else {
                Some(Ok(with_cell(m, cell_read(m).wrapping_sub(1))))
            }
        },
        OpModel::Output => {
            if b == Backend::Gen && m.pointer >= m.mem.len() {
                Some(Err(VmFault::OutOfBounds))
            } else {
                Some(Ok(Machine { result: m.result.push(cell_read(m) as char), ..m }))
            }
        },
        OpModel::Input => {
            match b {
                Backend::Interp => Some(Ok(m)),
                Backend::Gen => {
                    if m.input.len() == 0 {
                        Some(Err(VmFault::InputFailed))
                    } else {
                        Some(Ok(Machine { input: m.input.subrange(1, m.input.len() as int), ..m }))
                    }
                },
            }
        },
        OpModel::Loop(body) => {
            if b == Backend::Gen && m.pointer >= m.mem.len() {
                Some(Err(VmFault::OutOfBounds))
            } else if cell_read(m) == 0 {
                Some(Ok(m))
            } else if fuel == 0 {
                None
            } else {
                match run_ops(b, m, body, fuel) {
                    None => None,
                    Some(Err(f)) => Some(Err(f)),
                    Some(Ok(m2)) => run_op(b, m2, op, (fuel - 1) as nat),
                }
            }
        },
    }
}

/// A sequence of operators in order under backend `b`, stopping at the first
/// fault or exhausted budget.
pub open spec fn run_ops(b: Backend, m: Machine, ops: Seq<OpModel>, fuel: nat) -> RunOutcome
    decreases fuel, ops,
{
    if ops.len() == 0 {
        Some(Ok(m))
    } else {
        proof {
            assert(decreases_to!(ops => ops[0]));
            assert(decreases_to!(ops => ops.subrange(1, ops.len() as int)));
        }
        match run_op(b, m, ops[0], fuel) {
            None => None,
            Some(Err(f)) => Some(Err(f)),
            Some(Ok(m2)) => run_ops(b, m2, ops.subrange(1, ops.len() as int), fuel),
        }
    }
}

/// Peeling one operator off the front of a run.
pub proof fn lemma_run_ops_step(b: Backend, m: Machine, ops: Seq<OpModel>, i: int, fuel: nat)
    requires
        0 <= i < ops.len(),
    ensures
        run_ops(b, m, ops.subrange(i, ops.len() as int), fuel) == match run_op(b, m, ops[i], fuel) {
            None => None::<Result<Machine, VmFault>>,
            Some(Err(f)) => Some(Err(f)),
            Some(Ok(m2)) => run_ops(b, m2, ops.subrange(i + 1, ops.len() as int), fuel),
        },
{
    let rest = ops.subrange(i, ops.len() as int);
    assert(rest[0] == ops[i]);
    assert(rest.subrange(1, rest.len() as int) =~= ops.subrange(i + 1, ops.len() as int));
}

} // verus!
