//! Execution records: the per-chip event logs filled by the runtime and
//! consumed by trace generation.

use vstd::prelude::*;
use crate::alu::Opcode;
use crate::fp12::Fp12MulEvent;

verus! {

/// One arithmetic-logic operation: result `a` of applying `opcode` to the
/// operands `b` and `c` at clock `clk`.
#[derive(Clone, Copy, Debug, PartialEq, Eq, Structural)]
pub struct AluEvent {
    pub clk: u32,
    pub opcode: Opcode,
    pub a: u32,
    pub b: u32,
    pub c: u32,
}

/// A byte range-check side event, derived by chips during the fill pass.
#[derive(Clone, Copy, Debug, PartialEq, Eq, Structural)]
pub struct ByteLookupEvent {
    pub value: u8,
}

/// One instruction of the register machine. `op_a` names the destination
/// register; `op_b` and `op_c` name source registers, or hold immediate
/// values where the matching flag is set.
#[derive(Clone, Copy, Debug, PartialEq, Eq, Structural)]
pub struct Instruction {
    pub opcode: Opcode,
    pub op_a: u32,
    pub op_b: u32,
    pub op_c: u32,
    pub imm_b: bool,
    pub imm_c: bool,
}

impl Instruction {
    pub fn new(opcode: Opcode, op_a: u32, op_b: u32, op_c: u32, imm_b: bool, imm_c: bool) -> (r:
        Instruction)
        ensures
            r == (Instruction { opcode, op_a, op_b, op_c, imm_b, imm_c }),
    {
        Instruction { opcode, op_a, op_b, op_c, imm_b, imm_c }
    }
}

/// A straight-line program for the register machine.
pub struct Program {
    pub instructions: Vec<Instruction>,
    pub pc_start: u32,
    pub pc_base: u32,
}

impl Program {
    pub fn new(instructions: Vec<Instruction>, pc_start: u32, pc_base: u32) -> (r: Program)
        ensures
            r.instructions@ == instructions@,
            r.pc_start == pc_start,
            r.pc_base == pc_base,
    {
        Program { instructions, pc_start, pc_base }
    }
}

/// The event log of one bounded execution window, one list per table kind.
/// The runtime fills the machine-event lists; chips append derived byte
/// lookups during the fill pass, and the record is read-only afterwards.
pub struct ExecutionRecord {
    pub program: Vec<Instruction>,
    pub cpu_events: Vec<AluEvent>,
    pub add_events: Vec<AluEvent>,
    pub sub_events: Vec<AluEvent>,
    pub mul_events: Vec<AluEvent>,
    pub bitwise_events: Vec<AluEvent>,
    pub shift_left_events: Vec<AluEvent>,
    pub shift_right_events: Vec<AluEvent>,
    pub lt_events: Vec<AluEvent>,
    pub divrem_events: Vec<AluEvent>,
    pub byte_lookups: Vec<ByteLookupEvent>,
    pub fp12_mul_events: Vec<Fp12MulEvent>,
}

fn append_alu(dst: &mut Vec<AluEvent>, src: &mut Vec<AluEvent>)
    ensures
        final(dst)@ == old(dst)@ + old(src)@,
        final(src)@ == Seq::<AluEvent>::empty(),
{
    let mut i: usize = 0;
    while i < src.len()
        invariant
            i <= src@.len(),
            src@ == old(src)@,
            dst@ == old(dst)@ + src@.take(i as int),
        decreases src@.len() - i,
    {
        dst.push(src[i]);
        proof {
            assert(old(dst)@ + src@.take(i + 1) =~= (old(dst)@ + src@.take(i as int)).push(
                src@[i as int],
            ));
        }
        i = i + 1;
    }
    proof {
        assert(src@.take(src@.len() as int) =~= src@);
    }
    src.clear();
}

fn append_bytes(dst: &mut Vec<ByteLookupEvent>, src: &mut Vec<ByteLookupEvent>)
    ensures
        final(dst)@ == old(dst)@ + old(src)@,
        final(src)@ == Seq::<ByteLookupEvent>::empty(),
{
    let mut i: usize = 0;
    while i < src.len()
        invariant
            i <= src@.len(),
            src@ == old(src)@,
            dst@ == old(dst)@ + src@.take(i as int),
        decreases src@.len() - i,
    {
        dst.push(src[i]);
        proof {
            assert(old(dst)@ + src@.take(i + 1) =~= (old(dst)@ + src@.take(i as int)).push(
                src@[i as int],
            ));
        }
        i = i + 1;
    }
    proof {
        assert(src@.take(src@.len() as int) =~= src@);
    }
    src.clear();
}

impl ExecutionRecord {
    /// An empty record with no program and no events.
    pub fn new() -> (r: ExecutionRecord)
        ensures
            r.program@ == Seq::<Instruction>::empty(),
            r.cpu_events@ == Seq::<AluEvent>::empty(),
            r.add_events@ == Seq::<AluEvent>::empty(),
            r.sub_events@ == Seq::<AluEvent>::empty(),
            r.mul_events@ == Seq::<AluEvent>::empty(),
            r.bitwise_events@ == Seq::<AluEvent>::empty(),
            r.shift_left_events@ == Seq::<AluEvent>::empty(),
            r.shift_right_events@ == Seq::<AluEvent>::empty(),
            r.lt_events@ == Seq::<AluEvent>::empty(),
            r.divrem_events@ == Seq::<AluEvent>::empty(),
            r.byte_lookups@ == Seq::<ByteLookupEvent>::empty(),
            r.fp12_mul_events@ == Seq::<Fp12MulEvent>::empty(),
    {
        ExecutionRecord {
            program: Vec::new(),
            cpu_events: Vec::new(),
            add_events: Vec::new(),
            sub_events: Vec::new(),
            mul_events: Vec::new(),
            bitwise_events: Vec::new(),
            shift_left_events: Vec::new(),
            shift_right_events: Vec::new(),
            lt_events: Vec::new(),
            divrem_events: Vec::new(),
            byte_lookups: Vec::new(),
            fp12_mul_events: Vec::new(),
        }
    }

    /// Merges another record's machine events and derived events into this
    /// one, emptying the other record's lists. The program is not merged.
    pub fn append(&mut self, other: &mut ExecutionRecord)
        ensures
            final(self).program@ == old(self).program@,
            final(self).cpu_events@ == old(self).cpu_events@ + old(other).cpu_events@,
            final(self).add_events@ == old(self).add_events@ + old(other).add_events@,
            final(self).sub_events@ == old(self).sub_events@ + old(other).sub_events@,
            final(self).mul_events@ == old(self).mul_events@ + old(other).mul_events@,
            final(self).bitwise_events@ == old(self).bitwise_events@ + old(other).bitwise_events@,
            final(self).shift_left_events@ == old(self).shift_left_events@ + old(
                other,
            ).shift_left_events@,
            final(self).shift_right_events@ == old(self).shift_right_events@ + old(
                other,
            ).shift_right_events@,
            final(self).lt_events@ == old(self).lt_events@ + old(other).lt_events@,
            final(self).divrem_events@ == old(self).divrem_events@ + old(other).divrem_events@,
            final(self).byte_lookups@ == old(self).byte_lookups@ + old(other).byte_lookups@,
            final(self).fp12_mul_events@ == old(self).fp12_mul_events@,
            final(other).cpu_events@.len() == 0,
            final(other).byte_lookups@.len() == 0,
    {
        append_alu(&mut self.cpu_events, &mut other.cpu_events);
        append_alu(&mut self.add_events, &mut other.add_events);
        append_alu(&mut self.sub_events, &mut other.sub_events);
        append_alu(&mut self.mul_events, &mut other.mul_events);
        append_alu(&mut self.bitwise_events, &mut other.bitwise_events);
        append_alu(&mut self.shift_left_events, &mut other.shift_left_events);
        append_alu(&mut self.shift_right_events, &mut other.shift_right_events);
        append_alu(&mut self.lt_events, &mut other.lt_events);
        append_alu(&mut self.divrem_events, &mut other.divrem_events);
        append_bytes(&mut self.byte_lookups, &mut other.byte_lookups);
    }
}

} // verus!
