//! The engine's entry points: the chip registry, the runtime that executes a
//! program into an execution record, and the top-level prove and verify
//! operations with the cross-table cumulative-sum check.

use vstd::prelude::*;
use crate::alu::{alu_op, spec_alu_op, Opcode};
use crate::challenger::{
    challenger_wf, spec_observe_commitment, ChallengerModel, DuplexChallenger,
};
use crate::chips::{fill_record, record_sized, record_wf, spec_class_of, ChipKind};
use crate::field::{ext_add, ext_valid, ext_zero, spec_ext_neg, spec_ext_sum, spec_ext_zero, Ext4};
use crate::proofs::{ProgramVerificationError, SegmentProof, VerificationError, VerificationErrorKind};
use crate::prover::{config_wf, MainData, Prover, StarkConfig};
use crate::record::{AluEvent, ByteLookupEvent, ExecutionRecord, Instruction, Program};
use crate::verify_chip::{spec_verify_chip, Verifier};

verus! {

/// The number of local chips in the registry.
pub const NUM_CHIPS: usize = 20;

/// The local chips, in dependency order. Chips whose constraints are
/// checked through another chip's table stand before the chip they depend
/// on, so the order is part of the protocol, not a convenience.
pub open spec fn spec_segment_chips() -> Seq<ChipKind> {
    seq![
        ChipKind::Program,
        ChipKind::Cpu,
        ChipKind::ShaExtend,
        ChipKind::ShaCompress,
        ChipKind::EdAdd,
        ChipKind::EdDecompress,
        ChipKind::K256Decompress,
        ChipKind::WeierstrassAdd,
        ChipKind::WeierstrassDouble,
        ChipKind::KeccakPermute,
        ChipKind::Add,
        ChipKind::Sub,
        ChipKind::Bitwise,
        ChipKind::DivRem,
        ChipKind::Mul,
        ChipKind::ShiftRight,
        ChipKind::ShiftLeft,
        ChipKind::Lt,
        ChipKind::FieldLtu,
        ChipKind::Byte,
    ]
}

/// The cross-segment memory-consistency chips, in order.
pub open spec fn spec_global_chips() -> Seq<ChipKind> {
    seq![ChipKind::MemoryInit, ChipKind::MemoryFinalize, ChipKind::ProgramMemory]
}

/// A program that stays within the register file and the tracing bounds.
pub open spec fn program_wf(prog: Seq<Instruction>) -> bool {
    &&& prog.len() <= 0x100000
    &&& forall|i: int|
        0 <= i < prog.len() ==> {
            let ins = #[trigger] prog[i];
            &&& ins.op_a < 32
            &&& (!ins.imm_b ==> ins.op_b < 32)
            &&& (!ins.imm_c ==> ins.op_c < 32)
        }
}

/// One execution step: resolves the operands against the registers, applies
/// the opcode, and writes the destination register.
pub open spec fn spec_step(regs: Seq<u32>, ins: Instruction, clk: u32) -> (AluEvent, Seq<u32>) {
    let b = if ins.imm_b {
        ins.op_b
    } else {
        regs[ins.op_b as int]
    };
    let c = if ins.imm_c {
        ins.op_c
    } else {
        regs[ins.op_c as int]
    };
    let a = spec_alu_op(ins.opcode, b, c);
    (
        AluEvent { clk, opcode: ins.opcode, a, b, c },
        regs.update(ins.op_a as int, a),
    )
}

/// The events and final registers of executing a straight-line program from
/// an all-zero register file.
pub open spec fn spec_exec(prog: Seq<Instruction>) -> (Seq<AluEvent>, Seq<u32>)
    decreases prog.len(),
{
    if prog.len() == 0 {
        (Seq::empty(), Seq::new(32, |i: int| 0u32))
    } else {
        let (events, regs) = spec_exec(prog.drop_last());
        let (ev, regs2) = spec_step(regs, prog.last(), (prog.len() - 1) as u32);
        (events.push(ev), regs2)
    }
}

/// The runtime: a program, the segment record its execution fills, and the
/// cross-segment global record.
pub struct Runtime {
    pub program: Program,
    pub segment: ExecutionRecord,
    pub global_segment: ExecutionRecord,
    pub registers: Vec<u32>,
    pub clk: u32,
}

impl Runtime {
    /// The local chip registry. The result is a pure function of nothing:
    /// every invocation, on prover and verifier alike, yields the same chips
    /// in the same order.
    pub fn segment_chips() -> (r: Vec<ChipKind>)
        ensures
            r@ == spec_segment_chips(),
            r@.len() == NUM_CHIPS,
    {
        let mut v: Vec<ChipKind> = Vec::new();
        v.push(ChipKind::Program);
        v.push(ChipKind::Cpu);
        v.push(ChipKind::ShaExtend);
        v.push(ChipKind::ShaCompress);
        v.push(ChipKind::EdAdd);
        v.push(ChipKind::EdDecompress);
        v.push(ChipKind::K256Decompress);
        v.push(ChipKind::WeierstrassAdd);
        v.push(ChipKind::WeierstrassDouble);
        v.push(ChipKind::KeccakPermute);
        v.push(ChipKind::Add);
        v.push(ChipKind::Sub);
        v.push(ChipKind::Bitwise);
        v.push(ChipKind::DivRem);
        v.push(ChipKind::Mul);
        v.push(ChipKind::ShiftRight);
        v.push(ChipKind::ShiftLeft);
        v.push(ChipKind::Lt);
        v.push(ChipKind::FieldLtu);
        v.push(ChipKind::Byte);
        proof {
            assert(v@ =~= spec_segment_chips());
        }
        v
    }

    /// The global chip registry, as fixed and order-stable as the local one.
    pub fn global_chips() -> (r: Vec<ChipKind>)
        ensures
            r@ == spec_global_chips(),
            r@.len() == 3,
    {
        let mut v: Vec<ChipKind> = Vec::new();
        v.push(ChipKind::MemoryInit);
        v.push(ChipKind::MemoryFinalize);
        v.push(ChipKind::ProgramMemory);
        proof {
            assert(v@ =~= spec_global_chips());
        }
        v
    }

    /// A fresh runtime over a program: empty records, zero registers.
    pub fn new(program: Program) -> (r: Runtime)
        ensures
            r.program.instructions@ == program.instructions@,
            r.segment.program@ == program.instructions@,
            r.segment.cpu_events@.len() == 0,
            r.segment.add_events@.len() == 0,
            r.segment.sub_events@.len() == 0,
            r.segment.mul_events@.len() == 0,
            r.segment.bitwise_events@.len() == 0,
            r.segment.divrem_events@.len() == 0,
            r.segment.shift_left_events@.len() == 0,
            r.segment.shift_right_events@.len() == 0,
            r.segment.lt_events@.len() == 0,
            r.segment.byte_lookups@.len() == 0,
            r.global_segment.cpu_events@.len() == 0,
            r.global_segment.program@.len() == 0,
            r.global_segment.byte_lookups@.len() == 0,
            record_sized(r.global_segment),
            r.registers@ == Seq::new(32, |i: int| 0u32),
            r.clk == 0,
    {
        let mut segment = ExecutionRecord::new();
        let mut prog_copy: Vec<Instruction> = Vec::new();
        let mut i: usize = 0;
        while i < program.instructions.len()
            invariant
                i <= program.instructions@.len(),
                prog_copy@ =~= program.instructions@.take(i as int),
            decreases program.instructions@.len() - i,
        {
            prog_copy.push(program.instructions[i]);
            i = i + 1;
        }
        proof {
            assert(program.instructions@.take(program.instructions@.len() as int)
                =~= program.instructions@);
        }
        segment.program = prog_copy;
        let mut registers: Vec<u32> = Vec::new();
        let mut j: usize = 0;
        while j < 32
            invariant
                j <= 32,
                registers@ =~= Seq::new(j as nat, |q: int| 0u32),
            decreases 32 - j,
        {
            registers.push(0u32);
            proof {
                assert(Seq::new((j + 1) as nat, |q: int| 0u32) =~= Seq::new(
                    j as nat,
                    |q: int| 0u32,
                ).push(0u32));
            }
            j = j + 1;
        }
        Runtime {
            program,
            segment,
            global_segment: ExecutionRecord::new(),
            registers,
            clk: 0,
        }
    }

    /// Executes the program, filling the segment's processor events and the
    /// per-class arithmetic-logic event lists consistently.
    pub fn run(&mut self)
        requires
            program_wf(old(self).program.instructions@),
            old(self).clk == 0,
            old(self).registers@ == Seq::new(32, |i: int| 0u32),
            old(self).segment.cpu_events@.len() == 0,
            old(self).segment.add_events@.len() == 0,
            old(self).segment.sub_events@.len() == 0,
            old(self).segment.mul_events@.len() == 0,
            old(self).segment.bitwise_events@.len() == 0,
            old(self).segment.divrem_events@.len() == 0,
            old(self).segment.shift_left_events@.len() == 0,
            old(self).segment.shift_right_events@.len() == 0,
            old(self).segment.lt_events@.len() == 0,
            old(self).segment.byte_lookups@.len() == 0,
            old(self).segment.program@.len() <= 0x100000,
        ensures
            final(self).segment.cpu_events@ == spec_exec(old(self).program.instructions@).0,
            final(self).registers@ == spec_exec(old(self).program.instructions@).1,
            record_wf(final(self).segment),
            final(self).segment.program@ == old(self).segment.program@,
            final(self).segment.byte_lookups@ == old(self).segment.byte_lookups@,
            final(self).global_segment == old(self).global_segment,
            final(self).program == old(self).program,
    {
        let total = self.program.instructions.len();
        proof {
            assert(self.segment.cpu_events@ =~= Seq::<AluEvent>::empty());
            assert(record_wf(self.segment)) by {
                assert(self.segment.add_events@ =~= crate::chips::spec_filter_class(
                    Seq::<AluEvent>::empty(),
                    ChipKind::Add,
                ));
                assert(self.segment.sub_events@ =~= crate::chips::spec_filter_class(
                    Seq::<AluEvent>::empty(),
                    ChipKind::Sub,
                ));
                assert(self.segment.bitwise_events@ =~= crate::chips::spec_filter_class(
                    Seq::<AluEvent>::empty(),
                    ChipKind::Bitwise,
                ));
                assert(self.segment.divrem_events@ =~= crate::chips::spec_filter_class(
                    Seq::<AluEvent>::empty(),
                    ChipKind::DivRem,
                ));
                assert(self.segment.mul_events@ =~= crate::chips::spec_filter_class(
                    Seq::<AluEvent>::empty(),
                    ChipKind::Mul,
                ));
                assert(self.segment.shift_right_events@ =~= crate::chips::spec_filter_class(
                    Seq::<AluEvent>::empty(),
                    ChipKind::ShiftRight,
                ));
                assert(self.segment.shift_left_events@ =~= crate::chips::spec_filter_class(
                    Seq::<AluEvent>::empty(),
                    ChipKind::ShiftLeft,
                ));
                assert(self.segment.lt_events@ =~= crate::chips::spec_filter_class(
                    Seq::<AluEvent>::empty(),
                    ChipKind::Lt,
                ));
            }
            assert(spec_exec(self.program.instructions@.take(0)).0 =~= Seq::<AluEvent>::empty());
        }
        let mut i: usize = 0;
        while i < total
            invariant
                i <= total,
                total == self.program.instructions@.len(),
                program_wf(self.program.instructions@),
                self.program == old(self).program,
                self.global_segment == old(self).global_segment,
                self.segment.program@ == old(self).segment.program@,
                self.segment.program@.len() <= 0x100000,
                self.segment.byte_lookups@ == old(self).segment.byte_lookups@,
                self.segment.byte_lookups@.len() == 0,
                self.registers@.len() == 32,
                self.clk == i,
                self.segment.cpu_events@.len() == i,
                self.segment.cpu_events@ == spec_exec(
                    self.program.instructions@.take(i as int),
                ).0,
                self.registers@ == spec_exec(self.program.instructions@.take(i as int)).1,
                record_wf(self.segment),
            decreases total - i,
        {
            let ins = self.program.instructions[i];
            let b = if ins.imm_b {
                ins.op_b
            } else {
                self.registers[ins.op_b as usize]
            };
            let c = if ins.imm_c {
                ins.op_c
            } else {
                self.registers[ins.op_c as usize]
            };
            let a = alu_op(ins.opcode, b, c);
            let ev = AluEvent { clk: self.clk, opcode: ins.opcode, a, b, c };
            let ghost pre_cpu = self.segment.cpu_events@;
            self.registers[ins.op_a as usize] = a;
            self.segment.cpu_events.push(ev);
            match class_of_opcode(ins.opcode) {
                ChipKind::Add => self.segment.add_events.push(ev),
                ChipKind::Sub => self.segment.sub_events.push(ev),
                ChipKind::Bitwise => self.segment.bitwise_events.push(ev),
                ChipKind::DivRem => self.segment.divrem_events.push(ev),
                ChipKind::Mul => self.segment.mul_events.push(ev),
                ChipKind::ShiftRight => self.segment.shift_right_events.push(ev),
                ChipKind::ShiftLeft => self.segment.shift_left_events.push(ev),
                _ => self.segment.lt_events.push(ev),
            }
            self.clk = self.clk + 1;
            proof {
                let prog = self.program.instructions@;
                assert(prog.take(i + 1).drop_last() =~= prog.take(i as int));
                assert(prog.take(i + 1).last() == prog[i as int]);
                assert(self.segment.cpu_events@ == pre_cpu.push(ev));
                assert(ev == spec_step(
                    spec_exec(prog.take(i as int)).1,
                    prog[i as int],
                    i as u32,
                ).0);
                assert(self.registers@ =~= spec_step(
                    spec_exec(prog.take(i as int)).1,
                    prog[i as int],
                    i as u32,
                ).1);
                assert(pre_cpu.push(ev).drop_last() =~= pre_cpu);
                lemma_filter_push(pre_cpu, ev);
                assert(record_wf(self.segment)) by {
                    let k0 = spec_class_of(ev.opcode);
                    assert(crate::chips::spec_filter_class(pre_cpu.push(ev), k0)
                        == crate::chips::spec_filter_class(pre_cpu, k0).push(ev));
                    assert(forall|k: ChipKind|
                        k != k0 ==> #[trigger] crate::chips::spec_filter_class(pre_cpu.push(ev), k)
                            == crate::chips::spec_filter_class(pre_cpu, k));
                    assert(self.segment.cpu_events@ == pre_cpu.push(ev));
                    assert(self.segment.cpu_events@.len() <= 0x100000);
                    assert(self.segment.program@.len() <= 0x100000);
                    assert(self.segment.byte_lookups@.len() <= 0x1000000);
                    assert(self.segment.add_events@ == crate::chips::spec_filter_class(
                        pre_cpu.push(ev),
                        ChipKind::Add,
                    ));
                    assert(self.segment.sub_events@ == crate::chips::spec_filter_class(
                        pre_cpu.push(ev),
                        ChipKind::Sub,
                    ));
                    assert(self.segment.bitwise_events@ == crate::chips::spec_filter_class(
                        pre_cpu.push(ev),
                        ChipKind::Bitwise,
                    ));
                    assert(self.segment.divrem_events@ == crate::chips::spec_filter_class(
                        pre_cpu.push(ev),
                        ChipKind::DivRem,
                    ));
                    assert(self.segment.mul_events@ == crate::chips::spec_filter_class(
                        pre_cpu.push(ev),
                        ChipKind::Mul,
                    ));
                    assert(self.segment.shift_right_events@ == crate::chips::spec_filter_class(
                        pre_cpu.push(ev),
                        ChipKind::ShiftRight,
                    ));
                    assert(self.segment.shift_left_events@ == crate::chips::spec_filter_class(
                        pre_cpu.push(ev),
                        ChipKind::ShiftLeft,
                    ));
                    assert(self.segment.lt_events@ == crate::chips::spec_filter_class(
                        pre_cpu.push(ev),
                        ChipKind::Lt,
                    ));
                }
            }
            i = i + 1;
        }
        proof {
            assert(self.program.instructions@.take(total as int) =~= self.program.instructions@);
        }
    }
}

impl Runtime {
    /// Proves the program: fills every chip's derived events, commits each
    /// chip's shard traces, observes all commitments into the transcript in
    /// registry order, runs each chip's sub-protocol against a transcript
    /// clone, and finally commits and proves the global chips the same way.
    /// The returned proofs verify: the verifier's whole acceptance predicate
    /// holds of them against any transcript in the starting state.
    #[verifier::rlimit(100)]
    pub fn prove(&mut self, config: &StarkConfig, challenger: &mut DuplexChallenger) -> (r: (
        Vec<SegmentProof>,
        SegmentProof,
    ))
        requires
            config_wf(*config),
            challenger_wf(old(challenger)@),
            record_wf(old(self).segment),
            record_sized(old(self).global_segment),
        ensures
            r.0@.len() == NUM_CHIPS,
            spec_runtime_verify(r.0@, r.1, old(challenger)@) == Ok::<
                (),
                ProgramVerificationError,
            >(()),
            final(challenger)@ == spec_observe_proof_commits(old(challenger)@, r.0@, 0),
            forall|i: int|
                0 <= i < NUM_CHIPS ==> (#[trigger] r.0@[i]).n == (
                if crate::chips::spec_is_event_chip(spec_segment_chips()[i]) {
                    crate::chips::spec_chunks(
                        crate::chips::spec_chip_alu_events(
                            old(self).segment,
                            spec_segment_chips()[i],
                        ),
                        config.shard_size as int,
                    ).len()
                } else {
                    1
                }),
            final(self).segment.program@ == old(self).segment.program@,
            final(self).segment.cpu_events@ == old(self).segment.cpu_events@,
            final(self).segment.add_events@ == old(self).segment.add_events@,
            final(self).segment.sub_events@ == old(self).segment.sub_events@,
            final(self).segment.mul_events@ == old(self).segment.mul_events@,
            final(self).segment.bitwise_events@ == old(self).segment.bitwise_events@,
            final(self).segment.divrem_events@ == old(self).segment.divrem_events@,
            final(self).segment.shift_left_events@ == old(self).segment.shift_left_events@,
            final(self).segment.shift_right_events@ == old(self).segment.shift_right_events@,
            final(self).segment.lt_events@ == old(self).segment.lt_events@,
            final(self).segment.fp12_mul_events@ == old(self).segment.fp12_mul_events@,
            final(self).segment.byte_lookups@.len() >= old(self).segment.byte_lookups@.len(),
            final(self).segment.byte_lookups@.take(
                old(self).segment.byte_lookups@.len() as int,
            ) == old(self).segment.byte_lookups@,
            final(self).segment.byte_lookups@ == old(self).segment.byte_lookups@
                + crate::chips::spec_fill_of(old(self).segment.add_events@)
                + crate::chips::spec_fill_of(old(self).segment.sub_events@)
                + crate::chips::spec_fill_of(old(self).segment.bitwise_events@)
                + crate::chips::spec_fill_of(old(self).segment.divrem_events@)
                + crate::chips::spec_fill_of(old(self).segment.mul_events@)
                + crate::chips::spec_fill_of(old(self).segment.shift_right_events@)
                + crate::chips::spec_fill_of(old(self).segment.shift_left_events@)
                + crate::chips::spec_fill_of(old(self).segment.lt_events@),
            forall|i: int|
                0 <= i < NUM_CHIPS ==> (#[trigger] r.0@[i]).commitment.main_commit@
                    == crate::prover::spec_chip_commit(
                    final(self).segment,
                    spec_segment_chips()[i],
                    config.shard_size as int,
                ),
            forall|i: int| 0 <= i < NUM_CHIPS ==> (#[trigger] r.0@[i]).public_values@.len() == 0,
            ({
                let ch2v = spec_observe_proof_commits(old(challenger)@, r.0@, 0);
                forall|i: int, j: int, col: int|
                    0 <= i < NUM_CHIPS && 0 <= j < r.0@[i].opened_values@.len() && 0 <= col
                        < r.0@[i].opened_values@[j]@.len()
                        ==> #[trigger] r.0@[i].opened_values@[j]@[col]
                        == crate::prover::spec_col_eval(
                        crate::chips::spec_padded_rows(
                            spec_chip_shard_rows(
                                final(self).segment,
                                spec_segment_chips()[i],
                                config.shard_size as int,
                                j,
                            ),
                            crate::chips::spec_chip_width(spec_segment_chips()[i]),
                        ),
                        col,
                        crate::challenger::spec_sample_ext(
                            crate::challenger::spec_observe_commitment(
                                crate::challenger::spec_sample_ext(ch2v).1,
                                r.0@[i].commitment.main_commit@,
                            ),
                        ).0,
                    )
            }),
            r.1.n == 3,
            r.1.public_values@.len() == 0,
            r.1.commitment.main_commit@ == spec_global_commit(),
            r.1.cumulative_sums@.len() == 3,
            forall|j: int|
                0 <= j < r.1.cumulative_sums@.len() ==> #[trigger] r.1.cumulative_sums@[j]
                    == spec_ext_zero(),
            r.1.opened_values@.len() == 3,
            forall|j: int, col: int|
                0 <= j < r.1.opened_values@.len() && 0 <= col < r.1.opened_values@[j]@.len()
                    ==> #[trigger] r.1.opened_values@[j]@[col] == crate::prover::spec_col_eval(
                    crate::chips::spec_padded_rows(Seq::empty(), 1),
                    col,
                    crate::challenger::spec_sample_ext(
                        crate::challenger::spec_observe_commitment(
                            crate::challenger::spec_sample_ext(
                                spec_observe_proof_commits(old(challenger)@, r.0@, 0),
                            ).1,
                            spec_global_commit(),
                        ),
                    ).0,
                ),
            final(self).global_segment == old(self).global_segment,
            final(self).program == old(self).program,
            final(self).registers@ == old(self).registers@,
            final(self).clk == old(self).clk,
            ({
                let gamma = crate::challenger::spec_sample_ext(
                    spec_observe_proof_commits(old(challenger)@, r.0@, 0),
                ).0;
                forall|i: int|
                    0 <= i < NUM_CHIPS ==> #[trigger] spec_ext_sum(r.0@[i].cumulative_sums@) == (
                    if crate::chips::spec_is_event_chip(spec_segment_chips()[i]) {
                        crate::chips::spec_events_sum(
                            spec_segment_chips()[i] == ChipKind::Cpu,
                            crate::chips::spec_chip_alu_events(
                                old(self).segment,
                                spec_segment_chips()[i],
                            ),
                            gamma,
                        )
                    } else {
                        spec_ext_zero()
                    })
            }),
            ({
                let gamma = crate::challenger::spec_sample_ext(
                    spec_observe_proof_commits(old(challenger)@, r.0@, 0),
                ).0;
                forall|i: int, j: int|
                    0 <= i < NUM_CHIPS && crate::chips::spec_is_event_chip(
                        spec_segment_chips()[i],
                    ) && 0 <= j < r.0@[i].cumulative_sums@.len()
                        ==> #[trigger] r.0@[i].cumulative_sums@[j] == crate::chips::spec_events_sum(
                        spec_segment_chips()[i] == ChipKind::Cpu,
                        crate::chips::spec_chunks(
                            crate::chips::spec_chip_alu_events(
                                old(self).segment,
                                spec_segment_chips()[i],
                            ),
                            config.shard_size as int,
                        )[j],
                        gamma,
                    )
            }),
    {
        let chips = Self::segment_chips();
        let mut i: usize = 0;
        while i < chips.len()
            invariant
                i <= 20,
                chips@ == spec_segment_chips(),
                record_wf(old(self).segment),
                self.segment.program@ == old(self).segment.program@,
                self.segment.cpu_events@ == old(self).segment.cpu_events@,
                self.segment.add_events@ == old(self).segment.add_events@,
                self.segment.sub_events@ == old(self).segment.sub_events@,
                self.segment.mul_events@ == old(self).segment.mul_events@,
                self.segment.bitwise_events@ == old(self).segment.bitwise_events@,
                self.segment.divrem_events@ == old(self).segment.divrem_events@,
                self.segment.shift_left_events@ == old(self).segment.shift_left_events@,
                self.segment.shift_right_events@ == old(self).segment.shift_right_events@,
                self.segment.lt_events@ == old(self).segment.lt_events@,
                self.segment.fp12_mul_events@ == old(self).segment.fp12_mul_events@,
                self.segment.byte_lookups@.take(old(self).segment.byte_lookups@.len() as int)
                    == old(self).segment.byte_lookups@,
                self.segment.byte_lookups@ =~= old(self).segment.byte_lookups@ + (if i > 10 {
                    crate::chips::spec_fill_of(old(self).segment.add_events@)
                } else {
                    Seq::<ByteLookupEvent>::empty()
                }) + (if i > 11 {
                    crate::chips::spec_fill_of(old(self).segment.sub_events@)
                } else {
                    Seq::<ByteLookupEvent>::empty()
                }) + (if i > 12 {
                    crate::chips::spec_fill_of(old(self).segment.bitwise_events@)
                } else {
                    Seq::<ByteLookupEvent>::empty()
                }) + (if i > 13 {
                    crate::chips::spec_fill_of(old(self).segment.divrem_events@)
                } else {
                    Seq::<ByteLookupEvent>::empty()
                }) + (if i > 14 {
                    crate::chips::spec_fill_of(old(self).segment.mul_events@)
                } else {
                    Seq::<ByteLookupEvent>::empty()
                }) + (if i > 15 {
                    crate::chips::spec_fill_of(old(self).segment.shift_right_events@)
                } else {
                    Seq::<ByteLookupEvent>::empty()
                }) + (if i > 16 {
                    crate::chips::spec_fill_of(old(self).segment.shift_left_events@)
                } else {
                    Seq::<ByteLookupEvent>::empty()
                }) + (if i > 17 {
                    crate::chips::spec_fill_of(old(self).segment.lt_events@)
                } else {
                    Seq::<ByteLookupEvent>::empty()
                }),
                self.program == old(self).program,
                self.registers@ == old(self).registers@,
                self.clk == old(self).clk,
                self.segment.byte_lookups@.len() == old(self).segment.byte_lookups@.len() + (
                if i > 10 {
                    4 * old(self).segment.add_events@.len()
                } else {
                    0
                }) + (if i > 11 {
                    4 * old(self).segment.sub_events@.len()
                } else {
                    0
                }) + (if i > 12 {
                    4 * old(self).segment.bitwise_events@.len()
                } else {
                    0
                }) + (if i > 13 {
                    4 * old(self).segment.divrem_events@.len()
                } else {
                    0
                }) + (if i > 14 {
                    4 * old(self).segment.mul_events@.len()
                } else {
                    0
                }) + (if i > 15 {
                    4 * old(self).segment.shift_right_events@.len()
                } else {
                    0
                }) + (if i > 16 {
                    4 * old(self).segment.shift_left_events@.len()
                } else {
                    0
                }) + (if i > 17 {
                    4 * old(self).segment.lt_events@.len()
                } else {
                    0
                }),
                self.global_segment == old(self).global_segment,
            decreases 20 - i,
        {
            proof {
                crate::chips::lemma_record_wf_sized(old(self).segment);
                if crate::chips::spec_chip_sign(chips@[i as int]) == Some(false) {
                    crate::chips::lemma_fill_of_len(
                        crate::chips::spec_chip_alu_events(self.segment, chips@[i as int]),
                    );
                    crate::chips::lemma_filter_class_len(
                        old(self).segment.cpu_events@,
                        crate::chips::spec_class_of(
                            old(self).segment.cpu_events@[0].opcode,
                        ),
                    );
                }
            }
            fill_record(chips[i], &mut self.segment);
            proof {
                assert(self.segment.byte_lookups@.take(
                    old(self).segment.byte_lookups@.len() as int,
                ) =~= old(self).segment.byte_lookups@);
                if crate::chips::spec_chip_sign(chips@[i as int]) == Some(false) {
                    crate::chips::lemma_filter_class_len(
                        old(self).segment.cpu_events@,
                        ChipKind::Add,
                    );
                    crate::chips::lemma_filter_class_len(
                        old(self).segment.cpu_events@,
                        ChipKind::Sub,
                    );
                    crate::chips::lemma_filter_class_len(
                        old(self).segment.cpu_events@,
                        ChipKind::Bitwise,
                    );
                    crate::chips::lemma_filter_class_len(
                        old(self).segment.cpu_events@,
                        ChipKind::DivRem,
                    );
                    crate::chips::lemma_filter_class_len(
                        old(self).segment.cpu_events@,
                        ChipKind::Mul,
                    );
                    crate::chips::lemma_filter_class_len(
                        old(self).segment.cpu_events@,
                        ChipKind::ShiftRight,
                    );
                    crate::chips::lemma_filter_class_len(
                        old(self).segment.cpu_events@,
                        ChipKind::ShiftLeft,
                    );
                    crate::chips::lemma_filter_class_len(
                        old(self).segment.cpu_events@,
                        ChipKind::Lt,
                    );
                }
            }
            i = i + 1;
        }
        proof {
            crate::chips::lemma_record_wf_sized(old(self).segment);
            crate::chips::lemma_filter_class_len(old(self).segment.cpu_events@, ChipKind::Add);
            crate::chips::lemma_filter_class_len(old(self).segment.cpu_events@, ChipKind::Sub);
            crate::chips::lemma_filter_class_len(
                old(self).segment.cpu_events@,
                ChipKind::Bitwise,
            );
            crate::chips::lemma_filter_class_len(
                old(self).segment.cpu_events@,
                ChipKind::DivRem,
            );
            crate::chips::lemma_filter_class_len(old(self).segment.cpu_events@, ChipKind::Mul);
            crate::chips::lemma_filter_class_len(
                old(self).segment.cpu_events@,
                ChipKind::ShiftRight,
            );
            crate::chips::lemma_filter_class_len(
                old(self).segment.cpu_events@,
                ChipKind::ShiftLeft,
            );
            crate::chips::lemma_filter_class_len(old(self).segment.cpu_events@, ChipKind::Lt);
            crate::chips::lemma_filter_lens_partition(old(self).segment.cpu_events@);
            assert(record_sized(self.segment));
        }
        let ghost seg = self.segment;
        let shard_size = config.shard_size;
        let mut main_datas: Vec<MainData> = Vec::new();
        let mut i2: usize = 0;
        while i2 < chips.len()
            invariant
                i2 <= 20,
                chips@ == spec_segment_chips(),
                config_wf(*config),
                shard_size == config.shard_size,
                seg == self.segment,
                record_sized(self.segment),
                self.global_segment == old(self).global_segment,
                record_sized(old(self).global_segment),
                main_datas@.len() == i2,
                forall|q: int|
                    0 <= q < i2 ==> crate::prover::spec_committed(
                        #[trigger] main_datas@[q],
                        spec_segment_chips()[q],
                        seg,
                        shard_size as int,
                    ),
            decreases 20 - i2,
        {
            let md = Prover::commit_chip(config, chips[i2], &self.segment);
            main_datas.push(md);
            i2 = i2 + 1;
        }
        let ghost mds = main_datas@;
        let ghost commits = Seq::new(20, |q: int| mds[q].main_commit@);
        let mut i3: usize = 0;
        while i3 < main_datas.len()
            invariant
                i3 <= 20,
                main_datas@ == mds,
                mds.len() == 20,
                commits == Seq::new(20, |q: int| mds[q].main_commit@),
                forall|q: int|
                    0 <= q < 20 ==> crate::prover::spec_committed(
                        #[trigger] mds[q],
                        spec_segment_chips()[q],
                        seg,
                        shard_size as int,
                    ),
                challenger_wf(challenger@),
                challenger@ == spec_observe_bytes_partial(old(challenger)@, commits, i3 as int),
            decreases 20 - i3,
        {
            proof {
                lemma_committed_lens(
                    mds[i3 as int],
                    spec_segment_chips()[i3 as int],
                    seg,
                    shard_size as int,
                );
                crate::prover::lemma_committed_parts(
                    mds[i3 as int],
                    spec_segment_chips()[i3 as int],
                    seg,
                    shard_size as int,
                );
            }
            challenger.observe_commitment(&main_datas[i3].main_commit);
            i3 = i3 + 1;
        }
        let ghost ch2 = challenger@;
        let mut local_proofs: Vec<SegmentProof> = Vec::new();
        let mut k: usize = 0;
        while k < 20
            invariant
                k <= 20,
                main_datas@ == mds.skip(k as int),
                mds.len() == 20,
                seg == self.segment,
                config_wf(*config),
                shard_size == config.shard_size,
                self.global_segment == old(self).global_segment,
                record_sized(old(self).global_segment),
                forall|q: int|
                    0 <= q < 20 ==> crate::prover::spec_committed(
                        #[trigger] mds[q],
                        spec_segment_chips()[q],
                        seg,
                        shard_size as int,
                    ),
                challenger_wf(challenger@),
                challenger@ == ch2,
                local_proofs@.len() == k,
                forall|q: int|
                    0 <= q < k ==> crate::prover::spec_proved(
                        #[trigger] local_proofs@[q],
                        spec_chips_v2(
                            spec_segment_chips(),
                            q,
                            local_proofs@[q].n as nat,
                        ),
                        mds[q],
                        ch2,
                    ),
                forall|q: int|
                    0 <= q < k ==> (#[trigger] local_proofs@[q]).n == mds[q].n,
            decreases 20 - k,
        {
            proof {
                assert(mds.skip(k as int)[0] == mds[k as int]);
            }
            let md = main_datas.remove(0);
            proof {
                assert(main_datas@ =~= mds.skip(k + 1));
                lemma_committed_lens(
                    mds[k as int],
                    spec_segment_chips()[k as int],
                    seg,
                    shard_size as int,
                );
                crate::prover::lemma_committed_parts(
                    mds[k as int],
                    spec_segment_chips()[k as int],
                    seg,
                    shard_size as int,
                );
            }
            let registry = Self::segment_chips();
            let chip = registry[k];
            let n = md.n;
            let mut chips_v2: Vec<ChipKind> = Vec::new();
            let mut q: usize = 0;
            while q < n
                invariant
                    q <= n,
                    chips_v2@ =~= Seq::new(q as nat, |p2: int| chip),
                decreases n - q,
            {
                chips_v2.push(chip);
                proof {
                    assert(Seq::new((q + 1) as nat, |p2: int| chip) =~= Seq::new(
                        q as nat,
                        |p2: int| chip,
                    ).push(chip));
                }
                q = q + 1;
            }
            proof {
                assert(chips_v2@ =~= spec_chips_v2(spec_segment_chips(), k as int, n as nat));
                assert(crate::prover::main_data_wf(md, chips_v2@));
            }
            let mut clone = challenger.copy();
            let p = Prover::prove(config, &mut clone, &chips_v2, md);
            proof {
                assert(p.n == n) by {
                    crate::prover::lemma_proved_parts(p, chips_v2@, md, ch2);
                }
                assert(chips_v2@ =~= spec_chips_v2(spec_segment_chips(), k as int, p.n as nat));
            }
            local_proofs.push(p);
            k = k + 1;
        }
        let global_chips = Self::global_chips();
        let gmd = Prover::commit_main(config, &global_chips, &self.global_segment);
        let ghost gmdg = gmd;
        let mut gclone = challenger.copy();
        let global_proof = Prover::prove(config, &mut gclone, &global_chips, gmd);
        proof {
            lemma_prove_accepts(
                local_proofs@,
                global_proof,
                old(challenger)@,
                ch2,
                mds,
                commits,
                gmdg,
                seg,
                shard_size as int,
            );
            assert forall|i: int| 0 <= i < 3 implies trace_wf_width_one(
                #[trigger] gmdg.traces@[i],
                old(self).global_segment,
                spec_global_chips()[i],
            ) by {
            }
            lemma_global_commit(gmdg, old(self).global_segment);
            crate::prover::lemma_proved_parts(global_proof, spec_global_chips(), gmdg, ch2);
            crate::prover::lemma_proved_openings(global_proof, spec_global_chips(), gmdg, ch2);
            assert forall|j: int|
                0 <= j < global_proof.cumulative_sums@.len()
                    implies #[trigger] global_proof.cumulative_sums@[j] == spec_ext_zero() by {
                crate::chips::lemma_rows_sum_none(
                    spec_global_chips()[j],
                    crate::chips::rows_view(gmdg.traces@[j]),
                    crate::challenger::spec_sample_ext(ch2).0,
                );
            }
            assert forall|j: int, col: int|
                0 <= j < global_proof.opened_values@.len() && 0 <= col
                    < global_proof.opened_values@[j]@.len()
                    implies #[trigger] global_proof.opened_values@[j]@[col]
                == crate::prover::spec_col_eval(
                crate::chips::spec_padded_rows(Seq::empty(), 1),
                col,
                crate::challenger::spec_sample_ext(
                    crate::challenger::spec_observe_commitment(
                        crate::challenger::spec_sample_ext(ch2).1,
                        spec_global_commit(),
                    ),
                ).0,
            ) by {
                assert(crate::chips::rows_view(gmdg.traces@[j])
                    == crate::chips::spec_padded_rows(Seq::empty(), 1));
            }
            assert forall|q: int|
                0 <= q < NUM_CHIPS implies #[trigger] spec_ext_sum(
                local_proofs@[q].cumulative_sums@,
            ) == (if crate::chips::spec_is_event_chip(spec_segment_chips()[q]) {
                crate::chips::spec_events_sum(
                    spec_segment_chips()[q] == ChipKind::Cpu,
                    crate::chips::spec_chip_alu_events(
                        old(self).segment,
                        spec_segment_chips()[q],
                    ),
                    crate::challenger::spec_sample_ext(ch2).0,
                )
            } else {
                spec_ext_zero()
            }) by {
                let k = spec_segment_chips()[q];
                lemma_committed_lens(mds[q], k, seg, shard_size as int);
                if crate::chips::spec_is_event_chip(k) {
                    lemma_chip_total_event(
                        local_proofs@[q],
                        k,
                        mds[q],
                        seg,
                        ch2,
                        shard_size as int,
                    );
                    assert(crate::chips::spec_chip_alu_events(seg, k)
                        == crate::chips::spec_chip_alu_events(old(self).segment, k));
                } else {
                    lemma_chip_total_inert(local_proofs@[q], k, mds[q], ch2);
                }
            }
            assert forall|q: int, j: int|
                0 <= q < NUM_CHIPS && crate::chips::spec_is_event_chip(spec_segment_chips()[q])
                    && 0 <= j < local_proofs@[q].cumulative_sums@.len()
                    implies #[trigger] local_proofs@[q].cumulative_sums@[j]
                == crate::chips::spec_events_sum(
                spec_segment_chips()[q] == ChipKind::Cpu,
                crate::chips::spec_chunks(
                    crate::chips::spec_chip_alu_events(
                        old(self).segment,
                        spec_segment_chips()[q],
                    ),
                    shard_size as int,
                )[j],
                crate::challenger::spec_sample_ext(ch2).0,
            ) by {
                let k = spec_segment_chips()[q];
                lemma_committed_lens(mds[q], k, seg, shard_size as int);
                crate::prover::lemma_proved_parts(
                    local_proofs@[q],
                    spec_chips_v2(spec_segment_chips(), q, local_proofs@[q].n as nat),
                    mds[q],
                    ch2,
                );
                lemma_shard_sum(
                    mds[q],
                    k,
                    seg,
                    crate::challenger::spec_sample_ext(ch2).0,
                    shard_size as int,
                    j,
                );
                assert(crate::chips::spec_chip_alu_events(seg, k)
                    == crate::chips::spec_chip_alu_events(old(self).segment, k));
            }
            assert forall|q: int|
                0 <= q < NUM_CHIPS implies (#[trigger] local_proofs@[q]).commitment.main_commit@
                == crate::prover::spec_chip_commit(
                seg,
                spec_segment_chips()[q],
                shard_size as int,
            ) by {
                let k = spec_segment_chips()[q];
                crate::prover::lemma_proved_parts(
                    local_proofs@[q],
                    spec_chips_v2(spec_segment_chips(), q, local_proofs@[q].n as nat),
                    mds[q],
                    ch2,
                );
                crate::prover::lemma_committed_commit(mds[q], k, seg, shard_size as int);
            }
            assert forall|q: int| 0 <= q < NUM_CHIPS implies (
            #[trigger] local_proofs@[q]).public_values@.len() == 0 by {
                crate::prover::lemma_proved_openings(
                    local_proofs@[q],
                    spec_chips_v2(spec_segment_chips(), q, local_proofs@[q].n as nat),
                    mds[q],
                    ch2,
                );
            }
            assert forall|q: int, j: int, col: int|
                0 <= q < NUM_CHIPS && 0 <= j < local_proofs@[q].opened_values@.len() && 0 <= col
                    < local_proofs@[q].opened_values@[j]@.len()
                    implies #[trigger] local_proofs@[q].opened_values@[j]@[col]
                == crate::prover::spec_col_eval(
                crate::chips::spec_padded_rows(
                    spec_chip_shard_rows(seg, spec_segment_chips()[q], shard_size as int, j),
                    crate::chips::spec_chip_width(spec_segment_chips()[q]),
                ),
                col,
                crate::challenger::spec_sample_ext(
                    crate::challenger::spec_observe_commitment(
                        crate::challenger::spec_sample_ext(ch2).1,
                        local_proofs@[q].commitment.main_commit@,
                    ),
                ).0,
            ) by {
                let k = spec_segment_chips()[q];
                let cv = spec_chips_v2(spec_segment_chips(), q, local_proofs@[q].n as nat);
                crate::prover::lemma_proved_parts(local_proofs@[q], cv, mds[q], ch2);
                crate::prover::lemma_proved_openings(local_proofs@[q], cv, mds[q], ch2);
                crate::prover::lemma_committed_parts(mds[q], k, seg, shard_size as int);
                if crate::chips::spec_is_event_chip(k) {
                    let cs = crate::chips::spec_chunks(
                        crate::chips::spec_chip_alu_events(seg, k),
                        shard_size as int,
                    );
                    crate::chips::lemma_rows_view_padded(
                        mds[q].traces@[j],
                        Seq::new(cs[j].len(), |q2: int| crate::chips::spec_alu_row(cs[j][q2])),
                        10,
                    );
                } else {
                    crate::chips::lemma_rows_view_padded(
                        mds[q].traces@[j],
                        crate::chips::spec_chip_rows(seg, k),
                        crate::chips::spec_chip_width(k),
                    );
                }
            }
            assert forall|q: int| 0 <= q < NUM_CHIPS implies (#[trigger] local_proofs@[q]).n == (
            if crate::chips::spec_is_event_chip(spec_segment_chips()[q]) {
                crate::chips::spec_chunks(
                    crate::chips::spec_chip_alu_events(
                        old(self).segment,
                        spec_segment_chips()[q],
                    ),
                    config.shard_size as int,
                ).len()
            } else {
                1
            }) by {
                let k = spec_segment_chips()[q];
                lemma_committed_lens(mds[q], k, seg, shard_size as int);
                crate::prover::lemma_committed_parts(mds[q], k, seg, shard_size as int);
                assert(crate::chips::spec_chip_alu_events(seg, k)
                    == crate::chips::spec_chip_alu_events(old(self).segment, k));
            }
        }
        (local_proofs, global_proof)
    }
}

fn class_of_opcode(op: Opcode) -> (r: ChipKind)
    ensures
        r == spec_class_of(op),
{
    match op {
        Opcode::ADD => ChipKind::Add,
        Opcode::SUB => ChipKind::Sub,
        Opcode::XOR => ChipKind::Bitwise,
        Opcode::OR => ChipKind::Bitwise,
        Opcode::AND => ChipKind::Bitwise,
        Opcode::SLL => ChipKind::ShiftLeft,
        Opcode::SRL => ChipKind::ShiftRight,
        Opcode::SRA => ChipKind::ShiftRight,
        Opcode::SLT => ChipKind::Lt,
        Opcode::SLTU => ChipKind::Lt,
        Opcode::MUL => ChipKind::Mul,
        Opcode::MULH => ChipKind::Mul,
        Opcode::MULHU => ChipKind::Mul,
        Opcode::MULHSU => ChipKind::Mul,
        Opcode::DIV => ChipKind::DivRem,
        Opcode::DIVU => ChipKind::DivRem,
        Opcode::REM => ChipKind::DivRem,
        Opcode::REMU => ChipKind::DivRem,
    }
}

/// Filtering by class commutes with appending one event.
proof fn lemma_filter_push(s: Seq<AluEvent>, e: AluEvent)
    ensures
        forall|k: ChipKind|
            #[trigger] crate::chips::spec_filter_class(s.push(e), k) == if spec_class_of(e.opcode)
                == k {
                crate::chips::spec_filter_class(s, k).push(e)
            } else {
                crate::chips::spec_filter_class(s, k)
            },
{
    assert forall|k: ChipKind|
        #[trigger] crate::chips::spec_filter_class(s.push(e), k) == if spec_class_of(e.opcode)
            == k {
            crate::chips::spec_filter_class(s, k).push(e)
        } else {
            crate::chips::spec_filter_class(s, k)
        } by {
        assert(s.push(e).drop_last() =~= s);
        assert(s.push(e).last() == e);
    }
}

/// Registry determinism: any two invocations of the chip registries yield
/// the same chips in the same order, so a proving call and its paired
/// verifying call always process chips identically.
pub proof fn lemma_registry_deterministic(
    a: Seq<ChipKind>,
    b: Seq<ChipKind>,
    ga: Seq<ChipKind>,
    gb: Seq<ChipKind>,
)
    requires
        a == spec_segment_chips(),
        b == spec_segment_chips(),
        ga == spec_global_chips(),
        gb == spec_global_chips(),
    ensures
        a == b,
        ga == gb,
{
}

/// The unpadded rows of one chip's shard: the rows of its chunk for an
/// event chip, and the chip's whole row set for a single-shard chip.
pub open spec fn spec_chip_shard_rows(
    r: ExecutionRecord,
    k: ChipKind,
    size: int,
    j: int,
) -> Seq<Seq<u64>> {
    if crate::chips::spec_is_event_chip(k) {
        let chunk = crate::chips::spec_chunks(crate::chips::spec_chip_alu_events(r, k), size)[j];
        Seq::new(chunk.len(), |q: int| crate::chips::spec_alu_row(chunk[q]))
    } else {
        crate::chips::spec_chip_rows(r, k)
    }
}

/// The serialized single padded trace of an inert global chip: width one,
/// one zero row.
pub open spec fn spec_global_trace_bytes() -> Seq<u8> {
    crate::trace::spec_trace_bytes_rows(
        1,
        crate::chips::spec_padded_rows(Seq::empty(), 1),
    )
}

/// The global segment's commitment: the three inert global chips' batched
/// traces carry no rows, so the commitment is one fixed digest.
pub open spec fn spec_global_commit() -> Seq<u8> {
    crate::digest::digest_of(
        crate::bytes::spec_u64_le(3u64) + spec_global_trace_bytes() + spec_global_trace_bytes()
            + spec_global_trace_bytes(),
    )
}

/// The global segment's committed batch digests to the fixed global
/// commitment.
proof fn lemma_global_trace_one(t: crate::trace::Trace, r: ExecutionRecord, k: ChipKind)
    requires
        k == ChipKind::MemoryInit || k == ChipKind::MemoryFinalize || k == ChipKind::ProgramMemory,
        t.width == crate::chips::spec_chip_width(k),
        crate::chips::rows_view(t).len() >= crate::chips::spec_chip_rows(r, k).len(),
        crate::chips::rows_view(t).take(crate::chips::spec_chip_rows(r, k).len() as int)
            == crate::chips::spec_chip_rows(r, k),
        forall|q: int|
            crate::chips::spec_chip_rows(r, k).len() <= q < crate::chips::rows_view(t).len()
                ==> #[trigger] crate::chips::rows_view(t)[q] == crate::trace::spec_zero_row(
                crate::chips::spec_chip_width(k),
            ),
        crate::chips::rows_view(t).len() == crate::trace::spec_npo2(
            crate::chips::spec_chip_rows(r, k).len() as int,
        ),
    ensures
        crate::chips::rows_view(t) == crate::chips::spec_padded_rows(Seq::empty(), 1),
        crate::trace::spec_trace_bytes(t) == spec_global_trace_bytes(),
{
    assert(crate::chips::spec_chip_rows(r, k) =~= Seq::<Seq<u64>>::empty());
    assert(crate::chips::spec_chip_width(k) == 1);
    crate::chips::lemma_rows_view_padded(t, Seq::empty(), 1);
    crate::chips::lemma_trace_bytes_view(t);
}

#[verifier::rlimit(100)]
proof fn lemma_global_commit(md: MainData, r: ExecutionRecord)
    requires
        md.traces@.len() == 3,
        md.main_commit@ == crate::digest::digest_of(
            crate::trace::spec_batch_bytes(md.traces@),
        ),
        forall|i: int|
            0 <= i < 3 ==> trace_wf_width_one(#[trigger] md.traces@[i], r, spec_global_chips()[i]),
    ensures
        md.main_commit@ == spec_global_commit(),
        forall|i: int|
            0 <= i < 3 ==> crate::chips::rows_view(#[trigger] md.traces@[i])
                == crate::chips::spec_padded_rows(Seq::empty(), 1),
{
    assert forall|i: int| 0 <= i < 3 implies crate::trace::spec_trace_bytes(
        #[trigger] md.traces@[i],
    ) == spec_global_trace_bytes() && crate::chips::rows_view(md.traces@[i])
        == crate::chips::spec_padded_rows(Seq::empty(), 1) by {
        lemma_global_trace_one(md.traces@[i], r, spec_global_chips()[i]);
    }
    let ts = md.traces@;
    assert(crate::trace::spec_batch_bytes_from(Seq::<crate::trace::Trace>::empty())
        == Seq::<u8>::empty());
    assert(ts.take(1).drop_last() =~= Seq::<crate::trace::Trace>::empty());
    assert(ts.take(1).last() == ts[0]);
    assert(ts.take(2).drop_last() =~= ts.take(1));
    assert(ts.take(2).last() == ts[1]);
    assert(ts.take(3).drop_last() =~= ts.take(2));
    assert(ts.take(3).last() == ts[2]);
    assert(ts.take(3) =~= ts);
    assert(crate::trace::spec_batch_bytes_from(ts.take(1)) == Seq::<u8>::empty()
        + spec_global_trace_bytes());
    assert(crate::trace::spec_batch_bytes_from(ts.take(2))
        == crate::trace::spec_batch_bytes_from(ts.take(1)) + spec_global_trace_bytes());
    assert(crate::trace::spec_batch_bytes_from(ts.take(3))
        == crate::trace::spec_batch_bytes_from(ts.take(2)) + spec_global_trace_bytes());
    assert(crate::trace::spec_batch_bytes(ts) =~= crate::bytes::spec_u64_le(3u64)
        + spec_global_trace_bytes() + spec_global_trace_bytes() + spec_global_trace_bytes());
}

/// The facts one inert global trace satisfies after the global commit.
pub open spec fn trace_wf_width_one(
    t: crate::trace::Trace,
    r: ExecutionRecord,
    k: ChipKind,
) -> bool {
    &&& t.width == crate::chips::spec_chip_width(k)
    &&& crate::chips::rows_view(t).len() >= crate::chips::spec_chip_rows(r, k).len()
    &&& crate::chips::rows_view(t).take(crate::chips::spec_chip_rows(r, k).len() as int)
        == crate::chips::spec_chip_rows(r, k)
    &&& (forall|q: int|
        crate::chips::spec_chip_rows(r, k).len() <= q < crate::chips::rows_view(t).len()
            ==> #[trigger] crate::chips::rows_view(t)[q] == crate::trace::spec_zero_row(
            crate::chips::spec_chip_width(k),
        ))
    &&& crate::chips::rows_view(t).len() == crate::trace::spec_npo2(
        crate::chips::spec_chip_rows(r, k).len() as int,
    )
}

/// The first proof whose main commitment is not a digest-sized byte string.
pub open spec fn spec_find_bad_commit(proofs: Seq<SegmentProof>, i: int) -> Option<int>
    decreases proofs.len() - i,
{
    if i < 0 || i >= proofs.len() {
        None
    } else if proofs[i].commitment.main_commit@.len() != 32 {
        Some(i)
    } else {
        spec_find_bad_commit(proofs, i + 1)
    }
}

/// The transcript state after observing every local proof's main
/// commitment, in registry order.
pub open spec fn spec_observe_proof_commits(
    ch: ChallengerModel,
    proofs: Seq<SegmentProof>,
    i: int,
) -> ChallengerModel
    decreases proofs.len() - i,
{
    if i < 0 || i >= proofs.len() {
        ch
    } else {
        spec_observe_proof_commits(
            spec_observe_commitment(ch, proofs[i].commitment.main_commit@),
            proofs,
            i + 1,
        )
    }
}

/// The chip set a per-chip sub-protocol runs against: the chip at the given
/// registry slot, repeated once per shard of its proof.
pub open spec fn spec_chips_v2(chips: Seq<ChipKind>, i: int, n: nat) -> Seq<ChipKind> {
    Seq::new(n, |q: int| chips[i])
}

/// Checks every local proof in registry order against the shared
/// post-observation transcript state, stopping at the first failure.
pub open spec fn spec_verify_locals(
    chips: Seq<ChipKind>,
    ch: ChallengerModel,
    proofs: Seq<SegmentProof>,
    i: int,
) -> Result<(), ProgramVerificationError>
    decreases proofs.len() - i,
{
    if i < 0 || i >= proofs.len() {
        Ok(())
    } else {
        match spec_verify_chip(spec_chips_v2(chips, i, proofs[i].n as nat), ch, proofs[i]) {
            Err(e) => Err(ProgramVerificationError::InvalidSegmentProof(e)),
            Ok(()) => spec_verify_locals(chips, ch, proofs, i + 1),
        }
    }
}

/// All cumulative sums of the local proofs, flattened in order.
pub open spec fn spec_flatten_sums(proofs: Seq<SegmentProof>) -> Seq<Ext4>
    decreases proofs.len(),
{
    if proofs.len() == 0 {
        Seq::empty()
    } else {
        spec_flatten_sums(proofs.drop_last()) + proofs.last().cumulative_sums@
    }
}

/// What it means for a batch of segment proofs to verify: there is one
/// local proof per registry chip, the transcript replays the commitments in
/// registry order, every per-chip proof checks against the shared
/// post-observation state, the global proof checks the same way, and the
/// cumulative sums of every chip and the global segment cancel to zero.
///
/// The carried sums are digest-bound into each proof's permutation
/// commitment and opening proof, so replacing a sum scalar alone is caught
/// as an invalid segment proof; the nonzero-sum rejection is reached only
/// by proofs whose per-chip checks all pass, with their sums re-sealed.
pub open spec fn spec_runtime_verify(
    proofs: Seq<SegmentProof>,
    global_proof: SegmentProof,
    ch: ChallengerModel,
) -> Result<(), ProgramVerificationError> {
    let chips = spec_segment_chips();
    if proofs.len() != 20 {
        Err(
            ProgramVerificationError::InvalidSegmentProof(
                VerificationError {
                    chip: ChipKind::Program,
                    kind: VerificationErrorKind::ProofCountMismatch,
                },
            ),
        )
    } else {
        match spec_find_bad_commit(proofs, 0) {
            Some(i) => Err(
                ProgramVerificationError::InvalidSegmentProof(
                    VerificationError {
                        chip: chips[i],
                        kind: VerificationErrorKind::CommitmentShape,
                    },
                ),
            ),
            None => {
                let ch2 = spec_observe_proof_commits(ch, proofs, 0);
                match spec_verify_locals(chips, ch2, proofs, 0) {
                    Err(e) => Err(e),
                    Ok(()) => match spec_verify_chip(spec_global_chips(), ch2, global_proof) {
                        Err(e) => Err(ProgramVerificationError::InvalidGlobalProof(e)),
                        Ok(()) => {
                            if spec_ext_sum(
                                spec_flatten_sums(proofs) + global_proof.cumulative_sums@,
                            ) == spec_ext_zero() {
                                Ok(())
                            } else {
                                Err(ProgramVerificationError::NonZeroCumulativeSum)
                            }
                        },
                    },
                }
            },
        }
    }
}

/// The cumulative-sum law: whenever a batch of proofs is accepted, the sum
/// of every chip's and the global segment's per-shard cumulative sums is
/// zero in the extension field.
pub proof fn lemma_accepted_sums_cancel(
    proofs: Seq<SegmentProof>,
    global_proof: SegmentProof,
    ch: ChallengerModel,
)
    requires
        spec_runtime_verify(proofs, global_proof, ch) is Ok,
    ensures
        spec_ext_sum(spec_flatten_sums(proofs) + global_proof.cumulative_sums@) == spec_ext_zero(),
{
}

/// An accepted local batch carries only canonical sums.
pub proof fn lemma_verify_locals_ok(
    chips: Seq<ChipKind>,
    ch: ChallengerModel,
    proofs: Seq<SegmentProof>,
    i: int,
)
    requires
        0 <= i,
        spec_verify_locals(chips, ch, proofs, i) is Ok,
    ensures
        forall|q: int|
            i <= q < proofs.len() ==> forall|j: int|
                0 <= j < (#[trigger] proofs[q]).cumulative_sums@.len() ==> ext_valid(
                    #[trigger] proofs[q].cumulative_sums@[j],
                ),
    decreases proofs.len() - i,
{
    if i < proofs.len() {
        crate::verify_chip::lemma_verify_chip_ok(
            spec_chips_v2(chips, i, proofs[i].n as nat),
            ch,
            proofs[i],
        );
        lemma_verify_locals_ok(chips, ch, proofs, i + 1);
    }
}

fn sum_vec(sums: &Vec<Ext4>) -> (r: Ext4)
    requires
        forall|j: int| 0 <= j < sums@.len() ==> ext_valid(#[trigger] sums@[j]),
    ensures
        r == spec_ext_sum(sums@),
        ext_valid(r),
{
    let mut acc = ext_zero();
    let mut i: usize = 0;
    while i < sums.len()
        invariant
            i <= sums@.len(),
            forall|j: int| 0 <= j < sums@.len() ==> ext_valid(#[trigger] sums@[j]),
            acc == spec_ext_sum(sums@.take(i as int)),
            ext_valid(acc),
        decreases sums@.len() - i,
    {
        proof {
            assert(sums@.take(i + 1).drop_last() =~= sums@.take(i as int));
            assert(sums@.take(i + 1).last() == sums@[i as int]);
        }
        acc = ext_add(acc, sums[i]);
        i = i + 1;
    }
    proof {
        assert(sums@.take(sums@.len() as int) =~= sums@);
    }
    acc
}

impl Runtime {
    /// Replays the transcript against the supplied proofs, checks every
    /// chip's proof and the global proof in registry order, and requires the
    /// cumulative sums to cancel; the first failure aborts the call with the
    /// failing component named.
    #[verifier::rlimit(80)]
    pub fn verify(
        &self,
        config: &StarkConfig,
        challenger: &mut DuplexChallenger,
        segments_proofs: &Vec<SegmentProof>,
        global_proof: &SegmentProof,
    ) -> (r: Result<(), ProgramVerificationError>)
        requires
            challenger_wf(old(challenger)@),
        ensures
            r == spec_runtime_verify(segments_proofs@, *global_proof, old(challenger)@),
    {
        let chips = Self::segment_chips();
        if segments_proofs.len() != NUM_CHIPS {
            return Err(
                ProgramVerificationError::InvalidSegmentProof(
                    VerificationError {
                        chip: ChipKind::Program,
                        kind: VerificationErrorKind::ProofCountMismatch,
                    },
                ),
            );
        }
        let mut i: usize = 0;
        while i < segments_proofs.len()
            invariant
                i <= segments_proofs@.len(),
                segments_proofs@.len() == 20,
                spec_find_bad_commit(segments_proofs@, 0) == spec_find_bad_commit(
                    segments_proofs@,
                    i as int,
                ),
            decreases segments_proofs@.len() - i,
        {
            if segments_proofs[i].commitment.main_commit.len() != 32 {
                let chips2 = Self::segment_chips();
                return Err(
                    ProgramVerificationError::InvalidSegmentProof(
                        VerificationError {
                            chip: chips2[i],
                            kind: VerificationErrorKind::CommitmentShape,
                        },
                    ),
                );
            }
            i = i + 1;
        }
        proof {
            assert(spec_find_bad_commit(segments_proofs@, segments_proofs@.len() as int)
                is None);
        }
        let mut j: usize = 0;
        while j < segments_proofs.len()
            invariant
                j <= segments_proofs@.len(),
                segments_proofs@.len() == 20,
                spec_find_bad_commit(segments_proofs@, 0) is None,
                challenger_wf(challenger@),
                challenger@ == spec_observe_proof_commits(
                    old(challenger)@,
                    segments_proofs@,
                    0,
                ) || challenger@ == spec_observe_partial(
                    old(challenger)@,
                    segments_proofs@,
                    j as int,
                ),
                challenger@ == spec_observe_partial(old(challenger)@, segments_proofs@, j as int),
            decreases segments_proofs@.len() - j,
        {
            proof {
                lemma_find_bad_range(segments_proofs@, 0, j as int);
            }
            challenger.observe_commitment(&segments_proofs[j].commitment.main_commit);
            proof {
                assert(challenger@ == spec_observe_partial(
                    old(challenger)@,
                    segments_proofs@,
                    j + 1,
                ));
            }
            j = j + 1;
        }
        proof {
            lemma_observe_partial_full(old(challenger)@, segments_proofs@);
        }
        let ghost ch2 = challenger@;
        let mut k: usize = 0;
        while k < segments_proofs.len()
            invariant
                k <= segments_proofs@.len(),
                segments_proofs@.len() == 20,
                challenger_wf(challenger@),
                challenger@ == ch2,
                ch2 == spec_observe_proof_commits(old(challenger)@, segments_proofs@, 0),
                spec_find_bad_commit(segments_proofs@, 0) is None,
                spec_verify_locals(spec_segment_chips(), ch2, segments_proofs@, 0)
                    == spec_verify_locals(spec_segment_chips(), ch2, segments_proofs@, k as int),
            decreases segments_proofs@.len() - k,
        {
            let registry = Self::segment_chips();
            let chip = registry[k];
            let proof_k = &segments_proofs[k];
            let n = proof_k.n;
            let mut chips_v2: Vec<ChipKind> = Vec::new();
            let mut q: usize = 0;
            while q < n
                invariant
                    q <= n,
                    chips_v2@ =~= Seq::new(q as nat, |p2: int| chip),
                decreases n - q,
            {
                chips_v2.push(chip);
                proof {
                    assert(Seq::new((q + 1) as nat, |p2: int| chip) =~= Seq::new(
                        q as nat,
                        |p2: int| chip,
                    ).push(chip));
                }
                q = q + 1;
            }
            proof {
                assert(chips_v2@ =~= spec_chips_v2(
                    spec_segment_chips(),
                    k as int,
                    proof_k.n as nat,
                ));
            }
            let mut clone = challenger.copy();
            let res = Verifier::verify(config, &chips_v2, &mut clone, proof_k);
            proof {
                let cv = spec_chips_v2(spec_segment_chips(), k as int, proof_k.n as nat);
                assert(res == crate::verify_chip::spec_verify_chip(cv, ch2, segments_proofs@[k as int]));
            }
            match res {
                Err(e) => {
                    proof {
                        assert(spec_verify_locals(
                            spec_segment_chips(),
                            ch2,
                            segments_proofs@,
                            k as int,
                        ) == Err::<(), ProgramVerificationError>(
                            ProgramVerificationError::InvalidSegmentProof(e),
                        ));
                    }
                    return Err(ProgramVerificationError::InvalidSegmentProof(e));
                },
                Ok(()) => {
                    proof {
                        assert(spec_verify_locals(
                            spec_segment_chips(),
                            ch2,
                            segments_proofs@,
                            k as int,
                        ) == spec_verify_locals(
                            spec_segment_chips(),
                            ch2,
                            segments_proofs@,
                            k + 1,
                        ));
                    }
                },
            }
            k = k + 1;
        }
        let global_chips = Self::global_chips();
        let mut gclone = challenger.copy();
        let gres = Verifier::verify(config, &global_chips, &mut gclone, global_proof);
        match gres {
            Err(e) => {
                return Err(ProgramVerificationError::InvalidGlobalProof(e));
            },
            Ok(()) => {},
        }
        proof {
            lemma_verify_locals_ok(spec_segment_chips(), ch2, segments_proofs@, 0);
            crate::verify_chip::lemma_verify_chip_ok(spec_global_chips(), ch2, *global_proof);
        }
        let mut total = ext_zero();
        let mut m: usize = 0;
        while m < segments_proofs.len()
            invariant
                m <= segments_proofs@.len(),
                forall|q2: int|
                    0 <= q2 < segments_proofs@.len() ==> forall|j2: int|
                        0 <= j2 < (#[trigger] segments_proofs@[q2]).cumulative_sums@.len()
                            ==> ext_valid(#[trigger] segments_proofs@[q2].cumulative_sums@[j2]),
                total == spec_ext_sum(spec_flatten_sums(segments_proofs@.take(m as int))),
                ext_valid(total),
            decreases segments_proofs@.len() - m,
        {
            let s = sum_vec(&segments_proofs[m].cumulative_sums);
            proof {
                let pre = segments_proofs@.take(m as int);
                let post = segments_proofs@.take(m + 1);
                assert(post.drop_last() =~= pre);
                assert(post.last() == segments_proofs@[m as int]);
                lemma_flatten_sums_valid(pre);
                crate::field::lemma_ext_sum_concat(
                    spec_flatten_sums(pre),
                    segments_proofs@[m as int].cumulative_sums@,
                );
            }
            total = ext_add(total, s);
            m = m + 1;
        }
        proof {
            assert(segments_proofs@.take(segments_proofs@.len() as int) =~= segments_proofs@);
            lemma_flatten_sums_valid(segments_proofs@);
        }
        let gs = sum_vec(&global_proof.cumulative_sums);
        proof {
            crate::field::lemma_ext_sum_concat(
                spec_flatten_sums(segments_proofs@),
                global_proof.cumulative_sums@,
            );
        }
        let total2 = ext_add(total, gs);
        let zero = ext_zero();
        if total2 == zero {
            Ok(())
        } else {
            Err(ProgramVerificationError::NonZeroCumulativeSum)
        }
    }
}

/// The partial transcript state after observing the first `i` commitments.
pub open spec fn spec_observe_partial(
    ch: ChallengerModel,
    proofs: Seq<SegmentProof>,
    i: int,
) -> ChallengerModel
    decreases i,
{
    if i <= 0 {
        ch
    } else {
        spec_observe_commitment(
            spec_observe_partial(ch, proofs, i - 1),
            proofs[i - 1].commitment.main_commit@,
        )
    }
}

/// The forward and backward readings of the observation fold agree.
proof fn lemma_observe_shift(ch: ChallengerModel, proofs: Seq<SegmentProof>, i: int, j: int)
    requires
        0 <= i <= j <= proofs.len(),
    ensures
        spec_observe_proof_commits(spec_observe_partial(ch, proofs, i), proofs, i) == spec_observe_proof_commits(
            spec_observe_partial(ch, proofs, j),
            proofs,
            j,
        ),
    decreases j - i,
{
    if i < j {
        lemma_observe_shift(ch, proofs, i + 1, j);
    }
}

proof fn lemma_observe_partial_full(ch: ChallengerModel, proofs: Seq<SegmentProof>)
    ensures
        spec_observe_partial(ch, proofs, proofs.len() as int) == spec_observe_proof_commits(
            ch,
            proofs,
            0,
        ),
{
    lemma_observe_shift(ch, proofs, 0, proofs.len() as int);
}

/// If no commitment up to `j` is malformed, the scan from zero found none
/// up to `j` either.
proof fn lemma_find_bad_range(proofs: Seq<SegmentProof>, i: int, j: int)
    requires
        0 <= i <= j <= proofs.len(),
        spec_find_bad_commit(proofs, i) is None,
    ensures
        forall|q: int| i <= q < proofs.len() ==> (#[trigger] proofs[q]).commitment.main_commit@.len() == 32,
    decreases proofs.len() - i,
{
    if i < proofs.len() {
        lemma_find_bad_range(proofs, i + 1, if j < i + 1 {
            i + 1
        } else {
            j
        });
    }
}

proof fn lemma_flatten_sums_valid(proofs: Seq<SegmentProof>)
    requires
        forall|q: int|
            0 <= q < proofs.len() ==> forall|j: int|
                0 <= j < (#[trigger] proofs[q]).cumulative_sums@.len() ==> ext_valid(
                    #[trigger] proofs[q].cumulative_sums@[j],
                ),
    ensures
        forall|j: int|
            0 <= j < spec_flatten_sums(proofs).len() ==> ext_valid(
                #[trigger] spec_flatten_sums(proofs)[j],
            ),
    decreases proofs.len(),
{
    if proofs.len() > 0 {
        lemma_flatten_sums_valid(proofs.drop_last());
        assert forall|j: int| 0 <= j < spec_flatten_sums(proofs).len() implies ext_valid(
            #[trigger] spec_flatten_sums(proofs)[j],
        ) by {
            let pre = spec_flatten_sums(proofs.drop_last());
            if j < pre.len() {
                assert(spec_flatten_sums(proofs)[j] == pre[j]);
            } else {
                assert(spec_flatten_sums(proofs)[j] == proofs.last().cumulative_sums@[j
                    - pre.len()]);
                assert(proofs[proofs.len() - 1].cumulative_sums@.len()
                    == proofs.last().cumulative_sums@.len());
            }
        }
    }
}

/// If every main commitment has digest size, the scan finds none malformed.
proof fn lemma_find_bad_none(proofs: Seq<SegmentProof>, i: int)
    requires
        0 <= i,
        forall|q: int|
            i <= q < proofs.len() ==> (#[trigger] proofs[q]).commitment.main_commit@.len() == 32,
    ensures
        spec_find_bad_commit(proofs, i) is None,
    decreases proofs.len() - i,
{
    if i < proofs.len() {
        assert(proofs[i].commitment.main_commit@.len() == 32);
        lemma_find_bad_none(proofs, i + 1);
    }
}

/// If every local proof checks individually, the batch check passes.
proof fn lemma_locals_all_ok(
    chips: Seq<ChipKind>,
    ch: ChallengerModel,
    proofs: Seq<SegmentProof>,
    i: int,
)
    requires
        0 <= i,
        forall|q: int|
            i <= q < proofs.len() ==> spec_verify_chip(
                spec_chips_v2(chips, q, (#[trigger] proofs[q]).n as nat),
                ch,
                proofs[q],
            ) is Ok,
    ensures
        spec_verify_locals(chips, ch, proofs, i) is Ok,
    decreases proofs.len() - i,
{
    if i < proofs.len() {
        assert(spec_verify_chip(spec_chips_v2(chips, i, proofs[i].n as nat), ch, proofs[i])
            is Ok);
        lemma_locals_all_ok(chips, ch, proofs, i + 1);
    }
}

/// The transcript state after observing the first `i` of a list of raw
/// commitments.
pub open spec fn spec_observe_bytes_partial(
    ch: ChallengerModel,
    commits: Seq<Seq<u8>>,
    i: int,
) -> ChallengerModel
    decreases i,
{
    if i <= 0 {
        ch
    } else {
        spec_observe_commitment(spec_observe_bytes_partial(ch, commits, i - 1), commits[i - 1])
    }
}

/// Observing proofs' commitments is observing the commitments themselves.
proof fn lemma_observe_bytes_eq(
    ch: ChallengerModel,
    commits: Seq<Seq<u8>>,
    proofs: Seq<SegmentProof>,
    i: int,
)
    requires
        0 <= i <= proofs.len(),
        forall|q: int|
            0 <= q < i ==> commits[q] == (#[trigger] proofs[q]).commitment.main_commit@,
    ensures
        spec_observe_bytes_partial(ch, commits, i) == spec_observe_partial(ch, proofs, i),
    decreases i,
{
    if i > 0 {
        lemma_observe_bytes_eq(ch, commits, proofs, i - 1);
    }
}

/// The sum of all flattened sums is the sum of the per-proof totals.
proof fn lemma_flatten_sum_split(proofs: Seq<SegmentProof>)
    requires
        forall|q: int|
            0 <= q < proofs.len() ==> forall|j: int|
                0 <= j < (#[trigger] proofs[q]).cumulative_sums@.len() ==> ext_valid(
                    #[trigger] proofs[q].cumulative_sums@[j],
                ),
    ensures
        spec_ext_sum(spec_flatten_sums(proofs)) == spec_ext_sum(
            Seq::new(proofs.len(), |q: int| spec_ext_sum(proofs[q].cumulative_sums@)),
        ),
    decreases proofs.len(),
{
    let totals = Seq::new(proofs.len(), |q: int| spec_ext_sum(proofs[q].cumulative_sums@));
    if proofs.len() == 0 {
        assert(totals =~= Seq::<Ext4>::empty());
        assert(spec_flatten_sums(proofs) =~= Seq::<Ext4>::empty());
    } else {
        let pre = proofs.drop_last();
        lemma_flatten_sum_split(pre);
        lemma_flatten_sums_valid(pre);
        crate::field::lemma_ext_sum_concat(
            spec_flatten_sums(pre),
            proofs.last().cumulative_sums@,
        );
        let pre_totals = Seq::new(pre.len(), |q: int| spec_ext_sum(pre[q].cumulative_sums@));
        assert(totals.drop_last() =~= pre_totals);
        assert(totals.last() == spec_ext_sum(proofs.last().cumulative_sums@));
    }
}

/// One shard's cumulative sum over its committed trace equals the signed
/// fingerprint sum of the shard's event chunk.
proof fn lemma_shard_sum(
    md: MainData,
    k: ChipKind,
    seg: ExecutionRecord,
    gamma: Ext4,
    size: int,
    j: int,
)
    requires
        crate::prover::spec_committed(md, k, seg, size),
        crate::chips::spec_is_event_chip(k),
        0 <= j < crate::chips::spec_chunks(crate::chips::spec_chip_alu_events(seg, k), size).len(),
    ensures
        crate::chips::spec_rows_sum(k, crate::chips::rows_view(md.traces@[j]), gamma)
            == crate::chips::spec_events_sum(
            k == ChipKind::Cpu,
            crate::chips::spec_chunks(crate::chips::spec_chip_alu_events(seg, k), size)[j],
            gamma,
        ),
{
    crate::prover::lemma_committed_parts(md, k, seg, size);
    let cs = crate::chips::spec_chunks(crate::chips::spec_chip_alu_events(seg, k), size);
    crate::chips::lemma_rows_sum_events(
        k,
        crate::chips::rows_view(md.traces@[j]),
        cs[j],
        gamma,
    );
}

/// The lengths pinned by the commitment predicate.
proof fn lemma_committed_lens(md: MainData, k: ChipKind, seg: ExecutionRecord, size: int)
    requires
        crate::prover::spec_committed(md, k, seg, size),
    ensures
        md.n == md.traces@.len(),
        md.n >= 1,
        md.n <= 0x100000,
        crate::chips::spec_is_event_chip(k) ==> md.n == crate::chips::spec_chunks(
            crate::chips::spec_chip_alu_events(seg, k),
            size,
        ).len(),
{
    crate::prover::lemma_committed_parts(md, k, seg, size);
}

/// One chip's proof total: for an interacting chip, the signed fingerprint
/// sum of its whole event list; for any other chip, zero.
proof fn lemma_chip_total_event(
    p: SegmentProof,
    k: ChipKind,
    md: MainData,
    seg: ExecutionRecord,
    ch2: ChallengerModel,
    size: int,
)
    requires
        crate::prover::spec_proved(p, Seq::new(p.n as nat, |i: int| k), md, ch2),
        crate::prover::spec_committed(md, k, seg, size),
        size >= 1,
        p.n == md.n,
        crate::chips::spec_is_event_chip(k),
    ensures
        spec_ext_sum(p.cumulative_sums@) == crate::chips::spec_events_sum(
            k == ChipKind::Cpu,
            crate::chips::spec_chip_alu_events(seg, k),
            crate::challenger::spec_sample_ext(ch2).0,
        ),
{
    crate::prover::lemma_proved_parts(p, Seq::new(p.n as nat, |i: int| k), md, ch2);
    lemma_committed_lens(md, k, seg, size);
    let gamma = crate::challenger::spec_sample_ext(ch2).0;
    let chips = Seq::new(p.n as nat, |i: int| k);
    let events = crate::chips::spec_chip_alu_events(seg, k);
    let cs = crate::chips::spec_chunks(events, size);
    let sign = k == ChipKind::Cpu;
    assert(p.n == cs.len());
    assert forall|j: int| 0 <= j < cs.len() implies #[trigger] p.cumulative_sums@[j]
        == crate::chips::spec_events_sum(sign, cs[j], gamma) by {
        assert(p.cumulative_sums@[j] == crate::chips::spec_rows_sum(
            chips[j],
            crate::chips::rows_view(md.traces@[j]),
            gamma,
        ));
        assert(chips[j] == k);
        lemma_shard_sum(md, k, seg, gamma, size, j);
    }
    assert(p.cumulative_sums@ =~= Seq::new(
        cs.len(),
        |j: int| crate::chips::spec_events_sum(sign, cs[j], gamma),
    ));
    crate::chips::lemma_chunks_sum(sign, events, size, gamma);
}

/// A chip with no interaction proves a zero total.
#[verifier::rlimit(100)]
proof fn lemma_chip_total_inert(
    p: SegmentProof,
    k: ChipKind,
    md: MainData,
    ch2: ChallengerModel,
)
    requires
        crate::prover::spec_proved(p, Seq::new(p.n as nat, |i: int| k), md, ch2),
        crate::chips::spec_chip_sign(k) is None,
    ensures
        spec_ext_sum(p.cumulative_sums@) == spec_ext_zero(),
{
    crate::prover::lemma_proved_parts(p, Seq::new(p.n as nat, |i: int| k), md, ch2);
    let gamma = crate::challenger::spec_sample_ext(ch2).0;
    let chips = Seq::new(p.n as nat, |i: int| k);
    assert forall|j: int| 0 <= j < p.cumulative_sums@.len() implies #[trigger] p.cumulative_sums@[j]
        == spec_ext_zero() by {
        assert(p.cumulative_sums@[j] == crate::chips::spec_rows_sum(
            chips[j],
            crate::chips::rows_view(md.traces@[j]),
            gamma,
        ));
        assert(chips[j] == k);
        crate::chips::lemma_rows_sum_none(k, crate::chips::rows_view(md.traces@[j]), gamma);
    }
    crate::field::lemma_ext_sum_zeros(p.cumulative_sums@);
}

/// The round-trip acceptance argument: proofs produced by the prover's
/// pipeline satisfy the verifier's whole acceptance predicate against a
/// transcript in the prover's starting state.
#[verifier::rlimit(100)]
proof fn lemma_prove_accepts(
    proofs: Seq<SegmentProof>,
    global_proof: SegmentProof,
    ch0: ChallengerModel,
    ch2: ChallengerModel,
    mds: Seq<MainData>,
    commits: Seq<Seq<u8>>,
    gmd: MainData,
    seg: ExecutionRecord,
    size: int,
)
    requires
        proofs.len() == 20,
        mds.len() == 20,
        commits == Seq::new(20, |q: int| mds[q].main_commit@),
        size >= 1,
        seg.add_events@ == crate::chips::spec_filter_class(seg.cpu_events@, ChipKind::Add),
        seg.sub_events@ == crate::chips::spec_filter_class(seg.cpu_events@, ChipKind::Sub),
        seg.bitwise_events@ == crate::chips::spec_filter_class(seg.cpu_events@, ChipKind::Bitwise),
        seg.divrem_events@ == crate::chips::spec_filter_class(seg.cpu_events@, ChipKind::DivRem),
        seg.mul_events@ == crate::chips::spec_filter_class(seg.cpu_events@, ChipKind::Mul),
        seg.shift_right_events@ == crate::chips::spec_filter_class(
            seg.cpu_events@,
            ChipKind::ShiftRight,
        ),
        seg.shift_left_events@ == crate::chips::spec_filter_class(
            seg.cpu_events@,
            ChipKind::ShiftLeft,
        ),
        seg.lt_events@ == crate::chips::spec_filter_class(seg.cpu_events@, ChipKind::Lt),
        ch2 == spec_observe_bytes_partial(ch0, commits, 20),
        forall|q: int|
            0 <= q < 20 ==> crate::prover::spec_committed(
                #[trigger] mds[q],
                spec_segment_chips()[q],
                seg,
                size,
            ),
        forall|q: int|
            0 <= q < 20 ==> crate::prover::spec_proved(
                #[trigger] proofs[q],
                spec_chips_v2(spec_segment_chips(), q, proofs[q].n as nat),
                mds[q],
                ch2,
            ),
        forall|q: int| 0 <= q < 20 ==> (#[trigger] proofs[q]).n == mds[q].n,
        crate::prover::spec_proved(global_proof, spec_global_chips(), gmd, ch2),
    ensures
        spec_runtime_verify(proofs, global_proof, ch0) == Ok::<(), ProgramVerificationError>(()),
        ch2 == spec_observe_proof_commits(ch0, proofs, 0),
{
    let chips = spec_segment_chips();
    assert forall|q: int| 0 <= q < 20 implies (#[trigger] proofs[q]).commitment.main_commit@
        == commits[q] && proofs[q].commitment.main_commit@.len() == 32 by {
        crate::prover::lemma_proved_parts(
            proofs[q],
            spec_chips_v2(chips, q, proofs[q].n as nat),
            mds[q],
            ch2,
        );
        lemma_committed_lens(mds[q], chips[q], seg, size);
        crate::prover::lemma_committed_parts(mds[q], chips[q], seg, size);
    }
    lemma_find_bad_none(proofs, 0);
    lemma_observe_bytes_eq(ch0, commits, proofs, 20);
    lemma_observe_partial_full(ch0, proofs);
    assert(ch2 == spec_observe_proof_commits(ch0, proofs, 0));
    assert forall|q: int| 0 <= q < 20 implies spec_verify_chip(
        spec_chips_v2(chips, q, (#[trigger] proofs[q]).n as nat),
        ch2,
        proofs[q],
    ) is Ok by {
        lemma_committed_lens(mds[q], chips[q], seg, size);
        assert(spec_chips_v2(chips, q, proofs[q].n as nat).len() <= 0x100000);
        crate::verify_chip::lemma_proved_verifies(
            proofs[q],
            spec_chips_v2(chips, q, proofs[q].n as nat),
            mds[q],
            ch2,
        );
    }
    lemma_locals_all_ok(chips, ch2, proofs, 0);
    crate::verify_chip::lemma_proved_verifies(global_proof, spec_global_chips(), gmd, ch2);
    let gamma = crate::challenger::spec_sample_ext(ch2).0;
    let v = Seq::new(20, |q: int| spec_ext_sum(proofs[q].cumulative_sums@));
    assert forall|q: int| 0 <= q < 20 implies #[trigger] v[q] == if crate::chips::spec_is_event_chip(
        chips[q],
    ) {
        crate::chips::spec_events_sum(
            chips[q] == ChipKind::Cpu,
            crate::chips::spec_chip_alu_events(seg, chips[q]),
            gamma,
        )
    } else {
        spec_ext_zero()
    } by {
        assert(spec_chips_v2(chips, q, proofs[q].n as nat) =~= Seq::new(
            proofs[q].n as nat,
            |i: int| chips[q],
        ));
        if crate::chips::spec_is_event_chip(chips[q]) {
            lemma_chip_total_event(proofs[q], chips[q], mds[q], seg, ch2, size);
        } else {
            lemma_chip_total_inert(proofs[q], chips[q], mds[q], ch2);
        }
    }
    let cpu = seg.cpu_events@;
    assert(v[1] == crate::chips::spec_events_sum(true, cpu, gamma));
    assert forall|j: int| 0 <= j < 8 implies v[10 + j] == spec_ext_neg(
        #[trigger] crate::chips::spec_class_sums(cpu, gamma)[j],
    ) by {
        let kq = chips[10 + j];
        assert(kq == crate::chips::spec_alu_chips()[j]);
        assert(crate::chips::spec_chip_alu_events(seg, kq) == crate::chips::spec_filter_class(
            cpu,
            kq,
        ));
        crate::chips::lemma_events_sum_neg(crate::chips::spec_filter_class(cpu, kq), gamma);
    }
    crate::chips::lemma_cross_table_cancellation(v, cpu, gamma);
    assert forall|q: int|
        0 <= q < proofs.len() implies forall|j: int|
            0 <= j < (#[trigger] proofs[q]).cumulative_sums@.len() ==> ext_valid(
                #[trigger] proofs[q].cumulative_sums@[j],
            ) by {
        crate::prover::lemma_proved_parts(
            proofs[q],
            spec_chips_v2(chips, q, proofs[q].n as nat),
            mds[q],
            ch2,
        );
    }
    lemma_flatten_sum_split(proofs);
    assert(spec_ext_sum(spec_flatten_sums(proofs)) == spec_ext_zero());
    crate::prover::lemma_proved_parts(global_proof, spec_global_chips(), gmd, ch2);
    assert forall|i: int| 0 <= i < global_proof.cumulative_sums@.len()
        implies #[trigger] global_proof.cumulative_sums@[i] == spec_ext_zero() by {
        crate::chips::lemma_rows_sum_none(
            spec_global_chips()[i],
            crate::chips::rows_view(gmd.traces@[i]),
            gamma,
        );
    }
    crate::field::lemma_ext_sum_zeros(global_proof.cumulative_sums@);
    lemma_flatten_sums_valid(proofs);
    crate::field::lemma_ext_sum_concat(
        spec_flatten_sums(proofs),
        global_proof.cumulative_sums@,
    );
    crate::field::lemma_ext_add_zero(spec_ext_zero());
    assert(spec_ext_sum(spec_flatten_sums(proofs) + global_proof.cumulative_sums@)
        == spec_ext_zero());
}

} // verus!
