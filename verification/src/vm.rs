use vstd::prelude::*;
use crate::ast::{lemma_ops_height, lemma_ops_model, op_height, ops_height, ops_model, BfOperator, OpModel};
use crate::machine::{
    cell_read, grown_mem, init_machine, lemma_run_ops_step, run_op, run_ops, with_cell, Backend,
    Machine, VmFault,
};
use crate::script::BfScript;

verus! {

/// Relies on `String::push`: appends the given character to the end of the
/// string.
pub assume_specification[ String::push ](s: &mut String, c: char)
    ensures
        final(s)@ == old(s)@.push(c),
;

/// Why a run stopped without a result: a fatal fault of the machine, or an
/// exhausted iteration budget.
#[derive(Clone, Copy, Debug, PartialEq, Eq, Structural)]
pub enum VmHalt {
    Fault(VmFault),
    OutOfFuel,
}

/// The interpreter's working state: the output gathered so far, the tape,
/// the top-level program counter, and the pointer.
pub struct VmState {
    pub result: String,
    pub mem: Vec<u8>,
    pub program_counter: usize,
    pub pointer: usize,
}

impl VmState {
    /// The machine this state stands for. The interpreter never reads input,
    /// so the input component is empty.
    pub open spec fn model(self) -> Machine {
        Machine {
            result: self.result@,
            mem: self.mem@,
            pointer: self.pointer as nat,
            input: Seq::empty(),
        }
    }

    /// The addressed cell, reading zero past the end of the tape.
    pub fn current_cell_value(&self) -> (r: u8)
        ensures
            r == cell_read(self.model()),
    {
        if self.pointer < self.mem.len() {
            self.mem[self.pointer]
        } else {
            0
        }
    }

    /// Writes the addressed cell, first growing the tape with zero cells if
    /// the pointer is past the end.
    fn set_current_cell(&mut self, v: u8)
        requires
            old(self).pointer < old(self).mem@.len() || old(self).pointer < usize::MAX,
        ensures
            final(self).model() == with_cell(old(self).model(), v),
            final(self).program_counter == old(self).program_counter,
            final(self).pointer == old(self).pointer,
    {
        let ghost m0 = self.model();
        let ghost len0 = self.mem@.len();
        if self.pointer >= self.mem.len() {
            while self.mem.len() <= self.pointer
                invariant
                    self.pointer < usize::MAX,
                    len0 <= self.mem@.len() <= self.pointer + 1,
                    self.mem@.subrange(0, len0 as int) =~= m0.mem,
                    forall|j: int| len0 <= j < self.mem@.len() ==> self.mem@[j] == 0u8,
                    self.result == old(self).result,
                    self.pointer == old(self).pointer,
                    self.program_counter == old(self).program_counter,
                    m0 == old(self).model(),
                    len0 == m0.mem.len(),
                decreases self.pointer + 1 - self.mem@.len(),
            {
                self.mem.push(0);
            }
            proof {
                assert(self.mem@ =~= grown_mem(m0));
            }
        }
        self.mem[self.pointer] = v;
        proof {
            assert(self.model() =~= (Machine {
                mem: grown_mem(m0).update(m0.pointer as int, v),
                ..m0
            }));
        }
    }

    /// One operator against this state under the interpreter's semantics,
    /// with `fuel` bounding loop iteration. The result mirrors the
    /// specification run exactly: a completed state, a fault, or an
    /// exhausted budget.
    pub fn execute_op(&mut self, instruction: &BfOperator, fuel: u64) -> (r: Result<(), VmHalt>)
        ensures
            match r {
                Ok(()) => run_op(
                    Backend::Interp,
                    old(self).model(),
                    instruction.model(),
                    fuel as nat,
                ) == Some(Ok::<Machine, VmFault>(final(self).model()))
                    && final(self).program_counter == old(self).program_counter,
                Err(VmHalt::Fault(f)) => run_op(
                    Backend::Interp,
                    old(self).model(),
                    instruction.model(),
                    fuel as nat,
                ) == Some(Err::<Machine, VmFault>(f)),
                Err(VmHalt::OutOfFuel) => run_op(
                    Backend::Interp,
                    old(self).model(),
                    instruction.model(),
                    fuel as nat,
                ) == None::<Result<Machine, VmFault>>,
            },
        decreases op_height(*instruction),
    {
        let ghost m0 = self.model();
        match instruction {
            BfOperator::PointerInc => {
                if self.pointer == usize::MAX {
                    return Err(VmHalt::Fault(VmFault::PointerOverflow));
                }
                self.pointer = self.pointer + 1;
                proof {
                    assert(self.model() =~= (Machine { pointer: m0.pointer + 1, ..m0 }));
                }
                Ok(())
            },
            BfOperator::PointerDec => {
                if self.pointer == 0 {
                    return Err(VmHalt::Fault(VmFault::PointerUnderflow));
                }
                self.pointer = self.pointer - 1;
                proof {
                    assert(self.model() =~= (Machine {
                        pointer: (m0.pointer - 1) as nat,
                        ..m0
                    }));
                }
                Ok(())
            },
            BfOperator::Add => {
                if self.pointer >= self.mem.len() && self.pointer == usize::MAX {
                    return Err(VmHalt::Fault(VmFault::PointerOverflow));
                }
                let v = self.current_cell_value().wrapping_add(1);
                self.set_current_cell(v);
                Ok(())
            },
            BfOperator::Sub => {
                if self.pointer >= self.mem.len() && self.pointer == usize::MAX {
                    return Err(VmHalt::Fault(VmFault::PointerOverflow));
                }
                let v = self.current_cell_value().wrapping_sub(1);
                self.set_current_cell(v);
                Ok(())
            },
            BfOperator::Output => {
                let c = self.current_cell_value();
                self.result.push(c as char);
                proof {
                    assert(self.model() =~= (Machine {
                        result: m0.result.push(cell_read(m0) as char),
                        ..m0
                    }));
                }
                Ok(())
            },
            BfOperator::Input => {
                // Deliberately inert: the interpreter has no input channel.
                Ok(())
            },
            BfOperator::Loop(body) => {
                let ghost op_m = instruction.model();
                let ghost bm = ops_model(body@);
                proof {
                    lemma_ops_model(body@);
                    assert(op_m == OpModel::Loop(bm));
                    assert(op_height(*instruction) == 1 + ops_height(body@));
                }
                let mut f = fuel;
                let mut c = self.current_cell_value();
                while c != 0
                    invariant
                        m0 == old(self).model(),
                        c == cell_read(self.model()),
                        run_op(Backend::Interp, m0, op_m, fuel as nat) == run_op(
                            Backend::Interp,
                            self.model(),
                            op_m,
                            f as nat,
                        ),
                        self.program_counter == old(self).program_counter,
                        op_m == OpModel::Loop(bm),
                        op_m == instruction.model(),
                        op_height(*instruction) == 1 + ops_height(body@),
                        bm == ops_model(body@),
                        bm.len() == body@.len(),
                        forall|j: int| 0 <= j < body@.len() ==> #[trigger] bm[j] == body@[j].model(),
                    decreases f,
                {
                    if f == 0 {
                        proof {
                            assert(run_op(Backend::Interp, self.model(), op_m, 0) == None::<
                                Result<Machine, VmFault>,
                            >);
                        }
                        return Err(VmHalt::OutOfFuel);
                    }
                    let ghost m_enter = self.model();
                    proof {
                        assert(bm.subrange(0, bm.len() as int) =~= bm);
                    }
                    let mut k: usize = 0;
                    while k < body.len()
                        invariant
                            m0 == old(self).model(),
                            k <= body@.len(),
                            bm.len() == body@.len(),
                            forall|j: int|
                                0 <= j < body@.len() ==> #[trigger] bm[j] == body@[j].model(),
                            op_m == OpModel::Loop(bm),
                            op_m == instruction.model(),
                            op_height(*instruction) == 1 + ops_height(body@),
                            f >= 1,
                            cell_read(m_enter) != 0,
                            run_op(Backend::Interp, m_enter, op_m, f as nat) == run_op(
                                Backend::Interp,
                                m0,
                                op_m,
                                fuel as nat,
                            ),
                            run_op(Backend::Interp, m_enter, op_m, f as nat) == match run_ops(
                                Backend::Interp,
                                self.model(),
                                bm.subrange(k as int, bm.len() as int),
                                f as nat,
                            ) {
                                None => None::<Result<Machine, VmFault>>,
                                Some(Err(e)) => Some(Err(e)),
                                Some(Ok(m2)) => run_op(
                                    Backend::Interp,
                                    m2,
                                    op_m,
                                    (f - 1) as nat,
                                ),
                            },
                            self.program_counter == old(self).program_counter,
                        decreases body@.len() - k,
                    {
                        let ghost m_k = self.model();
                        proof {
                            lemma_ops_height(body@);
                            assert(op_height(body@[k as int]) <= ops_height(body@));
                            assert(op_height(*instruction) == 1 + ops_height(body@));
                            lemma_run_ops_step(Backend::Interp, m_k, bm, k as int, f as nat);
                        }
                        match self.execute_op(&body[k], f) {
                            Ok(()) => {},
                            Err(e) => {
                                return Err(e);
                            },
                        }
                        k = k + 1;
                    }
                    proof {
                        assert(bm.subrange(bm.len() as int, bm.len() as int) =~= Seq::<
                            OpModel,
                        >::empty());
                    }
                    f = f - 1;
                    c = self.current_cell_value();
                }
                proof {
                    assert(run_op(Backend::Interp, self.model(), op_m, f as nat) == Some(Ok::<
                        Machine,
                        VmFault,
                    >(self.model())));
                }
                Ok(())
            },
        }
    }
}

/// A single-use virtual machine: a parsed program together with a fresh
/// working state.
pub struct BfVM {
    pub bf_script: BfScript,
    pub state: VmState,
}

impl BfVM {
    /// A machine for `bf_script`, with a zeroed tape of `cells +
    /// negative_ptrs` cells and the pointer at the configured offset. The
    /// tape length must fit the machine's index range.
    pub fn new(bf_script: BfScript) -> (vm: Self)
        requires
            bf_script.cells + bf_script.negative_ptrs <= usize::MAX,
        ensures
            vm.bf_script == bf_script,
            vm.state.model() == init_machine(
                bf_script.cells as nat,
                bf_script.negative_ptrs as nat,
                Seq::empty(),
            ),
            vm.state.program_counter == 0,
    {
        let total = bf_script.cells + bf_script.negative_ptrs;
        let mut mem: Vec<u8> = Vec::new();
        while mem.len() < total
            invariant
                mem@.len() <= total,
                forall|j: int| 0 <= j < mem@.len() ==> mem@[j] == 0u8,
            decreases total - mem@.len(),
        {
            mem.push(0);
        }
        let state = VmState {
            result: String::new(),
            mem,
            pointer: bf_script.negative_ptrs,
            program_counter: 0,
        };
        let vm = Self { bf_script, state };
        proof {
            assert(vm.state.model() =~~= init_machine(
                vm.bf_script.cells as nat,
                vm.bf_script.negative_ptrs as nat,
                Seq::empty(),
            ));
        }
        vm
    }

    /// Runs the program from the current program counter to its end, with
    /// `fuel` bounding every loop's iteration. On completion the gathered
    /// output is drained and returned: the state keeps its tape and pointer
    /// but its result is cleared, so a machine is meant to be single-use. A
    /// fault or an exhausted budget yields no partial output.
    pub fn execute(&mut self, fuel: u64) -> (r: Result<String, VmHalt>)
        requires
            old(self).state.program_counter <= old(self).bf_script.script@.len(),
        ensures
            final(self).bf_script == old(self).bf_script,
            ({
                let outcome = run_ops(
                    Backend::Interp,
                    old(self).state.model(),
                    ops_model(old(self).bf_script.script@).subrange(
                        old(self).state.program_counter as int,
                        old(self).bf_script.script@.len() as int,
                    ),
                    fuel as nat,
                );
                match r {
                    Ok(out) => outcome matches Some(Ok(m)) && out@ == m.result
                        && final(self).state.model() == (Machine { result: Seq::empty(), ..m })
                        && final(self).state.program_counter == old(self).bf_script.script@.len(),
                    Err(VmHalt::Fault(f)) => outcome == Some(Err::<Machine, VmFault>(f)),
                    Err(VmHalt::OutOfFuel) => outcome == None::<Result<Machine, VmFault>>,
                }
            }),
    {
        let ghost m0 = self.state.model();
        let ghost all = ops_model(self.bf_script.script@);
        let ghost pc0 = self.state.program_counter as int;
        proof {
            lemma_ops_model(self.bf_script.script@);
        }
        let n = self.bf_script.script.len();
        while self.state.program_counter < n
            invariant
                m0 == old(self).state.model(),
                pc0 == old(self).state.program_counter as int,
                self.bf_script == old(self).bf_script,
                n == self.bf_script.script@.len(),
                pc0 <= self.state.program_counter <= n,
                all == ops_model(self.bf_script.script@),
                all.len() == n,
                forall|j: int|
                    0 <= j < n ==> #[trigger] all[j] == self.bf_script.script@[j].model(),
                run_ops(Backend::Interp, m0, all.subrange(pc0, n as int), fuel as nat) == run_ops(
                    Backend::Interp,
                    self.state.model(),
                    all.subrange(self.state.program_counter as int, n as int),
                    fuel as nat,
                ),
            decreases n - self.state.program_counter,
        {
            let pc = self.state.program_counter;
            let ghost m_k = self.state.model();
            proof {
                lemma_run_ops_step(Backend::Interp, m_k, all, pc as int, fuel as nat);
            }
            match self.state.execute_op(&self.bf_script.script[pc], fuel) {
                Ok(()) => {},
                Err(e) => {
                    return Err(e);
                },
            }
            self.state.program_counter = pc + 1;
        }
        proof {
            assert(all.subrange(n as int, n as int) =~= Seq::<OpModel>::empty());
        }
        let ghost m_end = self.state.model();
        let out = self.state.result.clone();
        self.state.result = String::new();
        proof {
            assert(self.state.model() =~= (Machine { result: Seq::empty(), ..m_end }));
        }
        Ok(out)
    }
}

} // verus!
