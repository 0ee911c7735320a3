//! The chip catalog: row layouts, trace generation, the fill pass, event
//! sharding, and the cross-table interaction argument.
//!
//! Each chip turns its slice of the execution record into trace rows of a
//! fixed width. The processor chip sends one interaction message per executed
//! operation; each arithmetic-logic chip receives the messages for its own
//! opcode class, so that, over a consistent record, all per-chip cumulative
//! sums cancel.

use vstd::prelude::*;
use crate::alu::{opcode_id, spec_opcode_id, Opcode};
use crate::field::{
    ext_add, ext_embed, ext_mul, ext_neg, ext_zero, ext_valid, fe_valid, spec_ext_add,
    spec_ext_embed, spec_ext_mul, spec_ext_neg, spec_ext_sum, spec_ext_zero, Ext4, FIELD_PRIME,
};
use crate::record::{AluEvent, ByteLookupEvent, ExecutionRecord, Instruction};
use crate::trace::{pad_to_power_of_two, spec_zero_row, trace_wf, Trace};

verus! {

/// The identity of a chip: the table kind it proves.
#[derive(Clone, Copy, Debug, PartialEq, Eq, Structural)]
pub enum ChipKind {
    Program,
    Cpu,
    ShaExtend,
    ShaCompress,
    EdAdd,
    EdDecompress,
    K256Decompress,
    WeierstrassAdd,
    WeierstrassDouble,
    KeccakPermute,
    Add,
    Sub,
    Bitwise,
    DivRem,
    Mul,
    ShiftRight,
    ShiftLeft,
    Lt,
    FieldLtu,
    Byte,
    MemoryInit,
    MemoryFinalize,
    ProgramMemory,
}

/// The arithmetic-logic chips, in registry order.
pub open spec fn spec_alu_chips() -> Seq<ChipKind> {
    seq![
        ChipKind::Add,
        ChipKind::Sub,
        ChipKind::Bitwise,
        ChipKind::DivRem,
        ChipKind::Mul,
        ChipKind::ShiftRight,
        ChipKind::ShiftLeft,
        ChipKind::Lt,
    ]
}

/// The chip that receives an opcode's interaction message.
pub open spec fn spec_class_of(op: Opcode) -> ChipKind {
    match op {
        Opcode::ADD => ChipKind::Add,
        Opcode::SUB => ChipKind::Sub,
        Opcode::XOR => ChipKind::Bitwise,
        Opcode::OR => ChipKind::Bitwise,
        Opcode::AND => ChipKind::Bitwise,
        Opcode::SLL => ChipKind::ShiftLeft,
        Opcode::SRL => ChipKind::ShiftRight,
        Opcode::SRA => ChipKind::ShiftRight,
        Opcode::SLT => ChipKind::Lt,
        Opcode::SLTU => ChipKind::Lt,
        Opcode::MUL => ChipKind::Mul,
        Opcode::MULH => ChipKind::Mul,
        Opcode::MULHU => ChipKind::Mul,
        Opcode::MULHSU => ChipKind::Mul,
        Opcode::DIV => ChipKind::DivRem,
        Opcode::DIVU => ChipKind::DivRem,
        Opcode::REM => ChipKind::DivRem,
        Opcode::REMU => ChipKind::DivRem,
    }
}

/// The position of an opcode's class within the arithmetic-logic chips.
pub open spec fn spec_class_index(op: Opcode) -> int {
    match spec_class_of(op) {
        ChipKind::Add => 0,
        ChipKind::Sub => 1,
        ChipKind::Bitwise => 2,
        ChipKind::DivRem => 3,
        ChipKind::Mul => 4,
        ChipKind::ShiftRight => 5,
        ChipKind::ShiftLeft => 6,
        _ => 7,
    }
}

pub proof fn lemma_class_index(op: Opcode)
    ensures
        0 <= spec_class_index(op) < 8,
        spec_alu_chips()[spec_class_index(op)] == spec_class_of(op),
{
}

/// The events of `s` whose opcode class is `k`, in order.
pub open spec fn spec_filter_class(s: Seq<AluEvent>, k: ChipKind) -> Seq<AluEvent>
    decreases s.len(),
{
    if s.len() == 0 {
        Seq::empty()
    } else {
        let rest = spec_filter_class(s.drop_last(), k);
        if spec_class_of(s.last().opcode) == k {
            rest.push(s.last())
        } else {
            rest
        }
    }
}

pub proof fn lemma_filter_class_len(s: Seq<AluEvent>, k: ChipKind)
    ensures
        spec_filter_class(s, k).len() <= s.len(),
    decreases s.len(),
{
    if s.len() > 0 {
        lemma_filter_class_len(s.drop_last(), k);
    }
}

/// A consistent record: each arithmetic-logic chip's list holds exactly the
/// processor's events of its class, in order, and the lists are small enough
/// to trace.
pub open spec fn record_wf(r: ExecutionRecord) -> bool {
    &&& r.cpu_events@.len() <= 0x100000
    &&& r.program@.len() <= 0x100000
    &&& r.byte_lookups@.len() <= 0x100000
    &&& r.add_events@ == spec_filter_class(r.cpu_events@, ChipKind::Add)
    &&& r.sub_events@ == spec_filter_class(r.cpu_events@, ChipKind::Sub)
    &&& r.bitwise_events@ == spec_filter_class(r.cpu_events@, ChipKind::Bitwise)
    &&& r.divrem_events@ == spec_filter_class(r.cpu_events@, ChipKind::DivRem)
    &&& r.mul_events@ == spec_filter_class(r.cpu_events@, ChipKind::Mul)
    &&& r.shift_right_events@ == spec_filter_class(r.cpu_events@, ChipKind::ShiftRight)
    &&& r.shift_left_events@ == spec_filter_class(r.cpu_events@, ChipKind::ShiftLeft)
    &&& r.lt_events@ == spec_filter_class(r.cpu_events@, ChipKind::Lt)
}

/// A record small enough to trace: every event list is bounded.
pub open spec fn record_sized(r: ExecutionRecord) -> bool {
    &&& r.cpu_events@.len() <= 0x100000
    &&& r.program@.len() <= 0x100000
    &&& r.byte_lookups@.len() <= 0x800000
    &&& r.add_events@.len() <= 0x100000
    &&& r.sub_events@.len() <= 0x100000
    &&& r.mul_events@.len() <= 0x100000
    &&& r.bitwise_events@.len() <= 0x100000
    &&& r.divrem_events@.len() <= 0x100000
    &&& r.shift_left_events@.len() <= 0x100000
    &&& r.shift_right_events@.len() <= 0x100000
    &&& r.lt_events@.len() <= 0x100000
}

/// A consistent record is small enough to trace.
pub proof fn lemma_record_wf_sized(r: ExecutionRecord)
    requires
        record_wf(r),
    ensures
        record_sized(r),
{
    lemma_filter_class_len(r.cpu_events@, ChipKind::Add);
    lemma_filter_class_len(r.cpu_events@, ChipKind::Sub);
    lemma_filter_class_len(r.cpu_events@, ChipKind::Bitwise);
    lemma_filter_class_len(r.cpu_events@, ChipKind::DivRem);
    lemma_filter_class_len(r.cpu_events@, ChipKind::Mul);
    lemma_filter_class_len(r.cpu_events@, ChipKind::ShiftRight);
    lemma_filter_class_len(r.cpu_events@, ChipKind::ShiftLeft);
    lemma_filter_class_len(r.cpu_events@, ChipKind::Lt);
}

/// The event list a chip traces, for chips whose rows are machine events.
pub open spec fn spec_chip_alu_events(r: ExecutionRecord, k: ChipKind) -> Seq<AluEvent> {
    match k {
        ChipKind::Cpu => r.cpu_events@,
        ChipKind::Add => r.add_events@,
        ChipKind::Sub => r.sub_events@,
        ChipKind::Bitwise => r.bitwise_events@,
        ChipKind::DivRem => r.divrem_events@,
        ChipKind::Mul => r.mul_events@,
        ChipKind::ShiftRight => r.shift_right_events@,
        ChipKind::ShiftLeft => r.shift_left_events@,
        ChipKind::Lt => r.lt_events@,
        _ => Seq::empty(),
    }
}

/// Whether a chip carries machine events in its rows.
pub open spec fn spec_is_event_chip(k: ChipKind) -> bool {
    match k {
        ChipKind::Cpu => true,
        ChipKind::Add => true,
        ChipKind::Sub => true,
        ChipKind::Bitwise => true,
        ChipKind::DivRem => true,
        ChipKind::Mul => true,
        ChipKind::ShiftRight => true,
        ChipKind::ShiftLeft => true,
        ChipKind::Lt => true,
        _ => false,
    }
}

/// The direction of a chip's interaction: the processor sends, the
/// arithmetic-logic chips receive, other chips take no part.
pub open spec fn spec_chip_sign(k: ChipKind) -> Option<bool> {
    match k {
        ChipKind::Cpu => Some(true),
        ChipKind::Add => Some(false),
        ChipKind::Sub => Some(false),
        ChipKind::Bitwise => Some(false),
        ChipKind::DivRem => Some(false),
        ChipKind::Mul => Some(false),
        ChipKind::ShiftRight => Some(false),
        ChipKind::ShiftLeft => Some(false),
        ChipKind::Lt => Some(false),
        _ => None,
    }
}

/// The number of columns of a chip's trace.
pub open spec fn spec_chip_width(k: ChipKind) -> int {
    match k {
        ChipKind::Program => 11,
        ChipKind::Byte => 2,
        _ => {
            if spec_is_event_chip(k) {
                10
            } else {
                1
            }
        },
    }
}

pub fn chip_width(k: ChipKind) -> (r: usize)
    ensures
        r == spec_chip_width(k),
{
    match k {
        ChipKind::Program => 11,
        ChipKind::Byte => 2,
        ChipKind::Cpu => 10,
        ChipKind::Add => 10,
        ChipKind::Sub => 10,
        ChipKind::Bitwise => 10,
        ChipKind::DivRem => 10,
        ChipKind::Mul => 10,
        ChipKind::ShiftRight => 10,
        ChipKind::ShiftLeft => 10,
        ChipKind::Lt => 10,
        _ => 1,
    }
}

/// The trace row of one machine event: the clock, the opcode, and the three
/// operand words in sixteen-bit limbs, then the reality flag.
pub open spec fn spec_alu_row(e: AluEvent) -> Seq<u64> {
    seq![
        (e.clk % 0x10000) as u64,
        (e.clk / 0x10000) as u64,
        spec_opcode_id(e.opcode),
        (e.a % 0x10000) as u64,
        (e.a / 0x10000) as u64,
        (e.b % 0x10000) as u64,
        (e.b / 0x10000) as u64,
        (e.c % 0x10000) as u64,
        (e.c / 0x10000) as u64,
        1u64,
    ]
}

fn alu_row(e: &AluEvent) -> (r: Vec<u64>)
    ensures
        r@ == spec_alu_row(*e),
{
    let mut row: Vec<u64> = Vec::new();
    row.push((e.clk % 0x10000) as u64);
    row.push((e.clk / 0x10000) as u64);
    row.push(opcode_id(e.opcode));
    row.push((e.a % 0x10000) as u64);
    row.push((e.a / 0x10000) as u64);
    row.push((e.b % 0x10000) as u64);
    row.push((e.b / 0x10000) as u64);
    row.push((e.c % 0x10000) as u64);
    row.push((e.c / 0x10000) as u64);
    row.push(1u64);
    proof {
        assert(row@ =~= spec_alu_row(*e));
    }
    row
}

/// The trace row of one program instruction.
pub open spec fn spec_instr_row(idx: int, ins: Instruction) -> Seq<u64> {
    seq![
        idx as u64,
        spec_opcode_id(ins.opcode),
        (ins.op_a % 0x10000) as u64,
        (ins.op_a / 0x10000) as u64,
        (ins.op_b % 0x10000) as u64,
        (ins.op_b / 0x10000) as u64,
        (ins.op_c % 0x10000) as u64,
        (ins.op_c / 0x10000) as u64,
        if ins.imm_b {
            1u64
        } else {
            0u64
        },
        if ins.imm_c {
            1u64
        } else {
            0u64
        },
        1u64,
    ]
}

fn instr_row(idx: usize, ins: &Instruction) -> (r: Vec<u64>)
    requires
        idx <= 0x10000000,
    ensures
        r@ == spec_instr_row(idx as int, *ins),
{
    let mut row: Vec<u64> = Vec::new();
    row.push(idx as u64);
    row.push(opcode_id(ins.opcode));
    row.push((ins.op_a % 0x10000) as u64);
    row.push((ins.op_a / 0x10000) as u64);
    row.push((ins.op_b % 0x10000) as u64);
    row.push((ins.op_b / 0x10000) as u64);
    row.push((ins.op_c % 0x10000) as u64);
    row.push((ins.op_c / 0x10000) as u64);
    row.push(if ins.imm_b {
        1u64
    } else {
        0u64
    });
    row.push(if ins.imm_c {
        1u64
    } else {
        0u64
    });
    row.push(1u64);
    proof {
        assert(row@ =~= spec_instr_row(idx as int, *ins));
    }
    row
}

/// The trace row of one byte range check.
pub open spec fn spec_byte_row(e: ByteLookupEvent) -> Seq<u64> {
    seq![e.value as u64, 1u64]
}

/// The unpadded rows of a chip's trace over a record.
pub open spec fn spec_chip_rows(r: ExecutionRecord, k: ChipKind) -> Seq<Seq<u64>> {
    match k {
        ChipKind::Program => Seq::new(
            r.program@.len(),
            |i: int| spec_instr_row(i, r.program@[i]),
        ),
        ChipKind::Byte => Seq::new(
            r.byte_lookups@.len(),
            |i: int| spec_byte_row(r.byte_lookups@[i]),
        ),
        _ => {
            if spec_is_event_chip(k) {
                Seq::new(
                    spec_chip_alu_events(r, k).len(),
                    |i: int| spec_alu_row(spec_chip_alu_events(r, k)[i]),
                )
            } else {
                Seq::empty()
            }
        },
    }
}

/// The sequence of row contents of a sequence of row vectors.
pub open spec fn vecs_view(s: Seq<Vec<u64>>) -> Seq<Seq<u64>> {
    Seq::new(s.len(), |i: int| s[i]@)
}

/// The row view of a trace.
pub open spec fn rows_view(t: Trace) -> Seq<Seq<u64>> {
    vecs_view(t.rows@)
}

proof fn lemma_alu_row_valid(e: AluEvent)
    ensures
        spec_alu_row(e).len() == 10,
        forall|j: int| 0 <= j < 10 ==> fe_valid(#[trigger] spec_alu_row(e)[j]),
{
}

proof fn lemma_instr_row_valid(idx: int, ins: Instruction)
    requires
        0 <= idx <= 0x10000000,
    ensures
        spec_instr_row(idx, ins).len() == 11,
        forall|j: int| 0 <= j < 11 ==> fe_valid(#[trigger] spec_instr_row(idx, ins)[j]),
{
}

/// Generates a chip's trace over a record: one row per event, padded with
/// zero rows to a power-of-two height.
pub fn generate_trace(k: ChipKind, r: &ExecutionRecord) -> (t: Trace)
    requires
        record_sized(*r),
    ensures
        t.width == spec_chip_width(k),
        trace_wf(t),
        rows_view(t).len() >= spec_chip_rows(*r, k).len(),
        rows_view(t).len() <= 2 * spec_chip_rows(*r, k).len() + 1,
        rows_view(t).len() == crate::trace::spec_npo2(spec_chip_rows(*r, k).len() as int),
        rows_view(t).take(spec_chip_rows(*r, k).len() as int) == spec_chip_rows(*r, k),
        forall|i: int|
            spec_chip_rows(*r, k).len() <= i < rows_view(t).len() ==> #[trigger] rows_view(t)[i]
                == spec_zero_row(spec_chip_width(k)),
{
    let width = chip_width(k);
    let mut rows: Vec<Vec<u64>> = Vec::new();
    let ghost target = spec_chip_rows(*r, k);
    match k {
        ChipKind::Program => {
            let mut i: usize = 0;
            while i < r.program.len()
                invariant
                    i <= r.program@.len(),
                    r.program@.len() <= 0x10000000,
                    target == spec_chip_rows(*r, k),
                    k == ChipKind::Program,
                    rows@.len() == i,
                    vecs_view(rows@) =~= target.take(i as int),
                decreases r.program@.len() - i,
            {
                let row = instr_row(i, &r.program[i]);
                let ghost before = rows@;
                let ghost rowv = row@;
                rows.push(row);
                proof {
                    assert(rows@ == before.push(row));
                    assert forall|j: int| 0 <= j < i + 1 implies vecs_view(rows@)[j]
                        == target.take(i + 1)[j] by {
                        if j < i {
                            assert(vecs_view(before)[j] == target[j]);
                            assert(rows@[j] == before[j]);
                        } else {
                            assert(rows@[j]@ == rowv);
                        }
                    }
                    assert(vecs_view(rows@) =~= target.take(i + 1));
                }
                i = i + 1;
            }
        },
        ChipKind::Byte => {
            let mut i: usize = 0;
            while i < r.byte_lookups.len()
                invariant
                    i <= r.byte_lookups@.len(),
                    r.byte_lookups@.len() <= 0x10000000,
                    target == spec_chip_rows(*r, k),
                    k == ChipKind::Byte,
                    rows@.len() == i,
                    vecs_view(rows@) =~= target.take(i as int),
                decreases r.byte_lookups@.len() - i,
            {
                let e = r.byte_lookups[i];
                let mut row: Vec<u64> = Vec::new();
                row.push(e.value as u64);
                row.push(1u64);
                proof {
                    assert(row@ =~= spec_byte_row(e));
                }
                let ghost before = rows@;
                let ghost rowv = row@;
                rows.push(row);
                proof {
                    assert(rows@ == before.push(row));
                    assert forall|j: int| 0 <= j < i + 1 implies vecs_view(rows@)[j]
                        == target.take(i + 1)[j] by {
                        if j < i {
                            assert(vecs_view(before)[j] == target[j]);
                            assert(rows@[j] == before[j]);
                        } else {
                            assert(rows@[j]@ == rowv);
                        }
                    }
                    assert(vecs_view(rows@) =~= target.take(i + 1));
                }
                i = i + 1;
            }
        },
        ChipKind::Cpu
        | ChipKind::Add
        | ChipKind::Sub
        | ChipKind::Bitwise
        | ChipKind::DivRem
        | ChipKind::Mul
        | ChipKind::ShiftRight
        | ChipKind::ShiftLeft
        | ChipKind::Lt => {
            let events = chip_alu_events(k, r);
            let mut i: usize = 0;
            while i < events.len()
                invariant
                    i <= events@.len(),
                    events@ == spec_chip_alu_events(*r, k),
                    events@.len() <= 0x10000000,
                    target == spec_chip_rows(*r, k),
                    spec_is_event_chip(k),
                    k != ChipKind::Program && k != ChipKind::Byte,
                    rows@.len() == i,
                    vecs_view(rows@) =~= target.take(i as int),
                decreases events@.len() - i,
            {
                let row = alu_row(&events[i]);
                let ghost before = rows@;
                let ghost rowv = row@;
                rows.push(row);
                proof {
                    assert(rows@ == before.push(row));
                    assert forall|j: int| 0 <= j < i + 1 implies vecs_view(rows@)[j]
                        == target.take(i + 1)[j] by {
                        if j < i {
                            assert(vecs_view(before)[j] == target[j]);
                            assert(rows@[j] == before[j]);
                        } else {
                            assert(rows@[j]@ == rowv);
                        }
                    }
                    assert(vecs_view(rows@) =~= target.take(i + 1));
                }
                i = i + 1;
            }
        },
        _ => {
            proof {
                assert(target =~= Seq::<Seq<u64>>::empty());
            }
        },
    }
    proof {
        assert(vecs_view(rows@) =~= target);
        assert forall|i: int| 0 <= i < target.len() implies (#[trigger] target[i]).len()
            == spec_chip_width(k) && (forall|j: int|
            0 <= j < target[i].len() ==> fe_valid(#[trigger] target[i][j])) by {
            if k == ChipKind::Program {
                lemma_instr_row_valid(i, r.program@[i]);
            } else if k == ChipKind::Byte {
            } else if spec_is_event_chip(k) {
                lemma_alu_row_valid(spec_chip_alu_events(*r, k)[i]);
            }
        }
    }
    let ghost unpadded = rows@;
    pad_to_power_of_two(&mut rows, width);
    let t = Trace { rows, width };
    proof {
        assert(vecs_view(unpadded) == target);
        assert(unpadded.len() == target.len());
        assert(t.rows@.take(target.len() as int) == unpadded);
        assert forall|i: int| 0 <= i < target.len() implies #[trigger] rows_view(t)[i]
            == target[i] by {
            assert(t.rows@[i] == unpadded[i]);
            assert(vecs_view(unpadded)[i] == target[i]);
        }
        assert(rows_view(t).take(target.len() as int) =~= target);
        assert forall|i: int|
            target.len() <= i < rows_view(t).len() implies #[trigger] rows_view(t)[i]
            == spec_zero_row(spec_chip_width(k)) by {
            assert(t.rows@[i]@ == spec_zero_row(width as int));
        }
        assert forall|i: int| 0 <= i < rows_view(t).len() implies (#[trigger] rows_view(t)[i]).len()
            == t.width && (forall|j: int|
            0 <= j < rows_view(t)[i].len() ==> fe_valid(#[trigger] rows_view(t)[i][j])) by {
            if i < target.len() {
                assert(rows_view(t)[i] == target[i]);
            } else {
                assert(rows_view(t)[i] == spec_zero_row(spec_chip_width(k)));
            }
        }
        assert(trace_wf(t)) by {
            assert(forall|i: int|
                0 <= i < t.rows@.len() ==> (#[trigger] t.rows@[i])@.len() == t.width) by {
                assert forall|i: int| 0 <= i < t.rows@.len() implies (#[trigger] t.rows@[i])@.len()
                    == t.width by {
                    assert(rows_view(t)[i] == t.rows@[i]@);
                }
            }
            assert(forall|i: int, j: int|
                0 <= i < t.rows@.len() && 0 <= j < t.rows@[i]@.len() ==> fe_valid(
                    #[trigger] t.rows@[i]@[j],
                )) by {
                assert forall|i: int, j: int|
                    0 <= i < t.rows@.len() && 0 <= j < t.rows@[i]@.len() implies fe_valid(
                    #[trigger] t.rows@[i]@[j],
                ) by {
                    assert(rows_view(t)[i] == t.rows@[i]@);
                    assert(fe_valid(rows_view(t)[i][j]));
                }
            }
        }
    }
    t
}

/// The machine-event list a chip traces.
pub fn chip_alu_events<'a>(k: ChipKind, r: &'a ExecutionRecord) -> (events: &'a Vec<AluEvent>)
    requires
        spec_is_event_chip(k),
    ensures
        events@ == spec_chip_alu_events(*r, k),
{
    match k {
        ChipKind::Cpu => &r.cpu_events,
        ChipKind::Add => &r.add_events,
        ChipKind::Sub => &r.sub_events,
        ChipKind::Bitwise => &r.bitwise_events,
        ChipKind::DivRem => &r.divrem_events,
        ChipKind::Mul => &r.mul_events,
        ChipKind::ShiftRight => &r.shift_right_events,
        ChipKind::ShiftLeft => &r.shift_left_events,
        _ => &r.lt_events,
    }
}

/// The four byte range checks derived from one event's result word.
pub open spec fn spec_event_byte_lookups(e: AluEvent) -> Seq<ByteLookupEvent> {
    seq![
        ByteLookupEvent { value: (e.a % 256) as u8 },
        ByteLookupEvent { value: ((e.a / 256) % 256) as u8 },
        ByteLookupEvent { value: ((e.a / 0x10000) % 256) as u8 },
        ByteLookupEvent { value: ((e.a / 0x1000000) % 256) as u8 },
    ]
}

/// The byte lookups derived from a list of events, in order.
pub open spec fn spec_fill_of(s: Seq<AluEvent>) -> Seq<ByteLookupEvent>
    decreases s.len(),
{
    if s.len() == 0 {
        Seq::empty()
    } else {
        spec_fill_of(s.drop_last()) + spec_event_byte_lookups(s.last())
    }
}

/// The byte lookups a chip derives during the fill pass: the receiving
/// chips range-check the result bytes of their events.
pub open spec fn spec_chip_fill(r: ExecutionRecord, k: ChipKind) -> Seq<ByteLookupEvent> {
    if spec_chip_sign(k) == Some(false) {
        spec_fill_of(spec_chip_alu_events(r, k))
    } else {
        Seq::empty()
    }
}

fn fill_bytes(events: &Vec<AluEvent>, out: &mut Vec<ByteLookupEvent>)
    ensures
        final(out)@ == old(out)@ + spec_fill_of(events@),
{
    let mut i: usize = 0;
    proof {
        assert(out@ =~= old(out)@ + spec_fill_of(events@.take(0)));
    }
    while i < events.len()
        invariant
            i <= events@.len(),
            out@ == old(out)@ + spec_fill_of(events@.take(i as int)),
        decreases events@.len() - i,
    {
        let e = events[i];
        out.push(ByteLookupEvent { value: (e.a % 256) as u8 });
        out.push(ByteLookupEvent { value: ((e.a / 256) % 256) as u8 });
        out.push(ByteLookupEvent { value: ((e.a / 0x10000) % 256) as u8 });
        out.push(ByteLookupEvent { value: ((e.a / 0x1000000) % 256) as u8 });
        proof {
            assert(events@.take(i + 1).drop_last() =~= events@.take(i as int));
            assert(events@.take(i + 1).last() == events@[i as int]);
            assert(out@ =~= old(out)@ + spec_fill_of(events@.take(i + 1)));
        }
        i = i + 1;
    }
    proof {
        assert(events@.take(events@.len() as int) =~= events@);
    }
}

/// The fill pass of one chip: appends the chip's derived byte lookups to
/// the record and changes nothing else.
pub fn fill_record(k: ChipKind, r: &mut ExecutionRecord)
    ensures
        final(r).byte_lookups@ == old(r).byte_lookups@ + spec_chip_fill(*old(r), k),
        final(r).program@ == old(r).program@,
        final(r).cpu_events@ == old(r).cpu_events@,
        final(r).add_events@ == old(r).add_events@,
        final(r).sub_events@ == old(r).sub_events@,
        final(r).mul_events@ == old(r).mul_events@,
        final(r).bitwise_events@ == old(r).bitwise_events@,
        final(r).shift_left_events@ == old(r).shift_left_events@,
        final(r).shift_right_events@ == old(r).shift_right_events@,
        final(r).lt_events@ == old(r).lt_events@,
        final(r).divrem_events@ == old(r).divrem_events@,
        final(r).fp12_mul_events@ == old(r).fp12_mul_events@,
    {
    match k {
        ChipKind::Add => fill_bytes(&r.add_events, &mut r.byte_lookups),
        ChipKind::Sub => fill_bytes(&r.sub_events, &mut r.byte_lookups),
        ChipKind::Bitwise => fill_bytes(&r.bitwise_events, &mut r.byte_lookups),
        ChipKind::DivRem => fill_bytes(&r.divrem_events, &mut r.byte_lookups),
        ChipKind::Mul => fill_bytes(&r.mul_events, &mut r.byte_lookups),
        ChipKind::ShiftRight => fill_bytes(&r.shift_right_events, &mut r.byte_lookups),
        ChipKind::ShiftLeft => fill_bytes(&r.shift_left_events, &mut r.byte_lookups),
        ChipKind::Lt => fill_bytes(&r.lt_events, &mut r.byte_lookups),
        _ => {
            proof {
                assert(r.byte_lookups@ =~= old(r).byte_lookups@ + spec_chip_fill(*old(r), k));
            }
        },
    }
}

/// The event list split into chunks of at most `size`, in order; an empty
/// list yields one empty chunk.
#[verifier::opaque]
pub open spec fn spec_chunks(s: Seq<AluEvent>, size: int) -> Seq<Seq<AluEvent>>
    decreases s.len(),
{
    if size < 1 || s.len() <= size {
        seq![s]
    } else {
        seq![s.take(size)] + spec_chunks(s.skip(size), size)
    }
}

/// The concatenation of a sequence of chunks.
pub open spec fn spec_concat(cs: Seq<Seq<AluEvent>>) -> Seq<AluEvent>
    decreases cs.len(),
{
    if cs.len() == 0 {
        Seq::empty()
    } else {
        cs.first() + spec_concat(cs.drop_first())
    }
}

pub proof fn lemma_chunks_props(s: Seq<AluEvent>, size: int)
    requires
        size >= 1,
    ensures
        spec_chunks(s, size).len() >= 1,
        spec_concat(spec_chunks(s, size)) == s,
        forall|i: int|
            0 <= i < spec_chunks(s, size).len() ==> (#[trigger] spec_chunks(s, size)[i]).len()
                <= s.len(),
    decreases s.len(),
{
    reveal(spec_chunks);
    let cs = spec_chunks(s, size);
    if s.len() <= size {
        assert(cs == seq![s]);
        assert(cs.first() == s);
        assert(cs.drop_first() =~= Seq::<Seq<AluEvent>>::empty());
        assert(spec_concat(cs.drop_first()) == Seq::<AluEvent>::empty());
        assert(spec_concat(cs) == s + Seq::<AluEvent>::empty());
        assert(spec_concat(cs) =~= s);
    } else {
        lemma_chunks_props(s.skip(size), size);
        assert(cs.first() == s.take(size));
        assert(cs.drop_first() =~= spec_chunks(s.skip(size), size));
        assert(spec_concat(cs.drop_first()) == spec_concat(spec_chunks(s.skip(size), size)));
        assert(spec_concat(cs) == s.take(size) + spec_concat(spec_chunks(s.skip(size), size)));
        assert(s.take(size) + s.skip(size) =~= s);
        assert(spec_concat(cs) =~= s);
        assert forall|i: int| 0 <= i < cs.len() implies (#[trigger] cs[i]).len() <= s.len() by {
            if i > 0 {
                assert(cs[i] == spec_chunks(s.skip(size), size)[i - 1]);
            }
        }
    }
}

/// Splits one event list into chunks of at most `size`.
fn chunk_events(events: &Vec<AluEvent>, size: usize) -> (r: Vec<Vec<AluEvent>>)
    requires
        size >= 1,
    ensures
        vecs_alu_view(r@) == spec_chunks(events@, size as int),
{
    proof {
        reveal(spec_chunks);
    }
    let mut out: Vec<Vec<AluEvent>> = Vec::new();
    let mut start: usize = 0;
    let n = events.len();
    if n == 0 {
        out.push(Vec::new());
        proof {
            assert(events@ =~= Seq::<AluEvent>::empty());
            assert(spec_chunks(events@, size as int) == seq![events@]);
            assert(vecs_alu_view(out@) =~~= spec_chunks(events@, size as int));
        }
        return out;
    }
    proof {
        assert(events@.skip(0) =~= events@);
        assert(vecs_alu_view(out@) =~~= Seq::<Seq<AluEvent>>::empty());
        assert(vecs_alu_view(out@) + spec_chunks(events@, size as int) =~~= spec_chunks(
            events@,
            size as int,
        ));
    }
    while start < n
        invariant
            size >= 1,
            n == events@.len(),
            n > 0,
            start <= n,
            start < n ==> spec_chunks(events@, size as int) =~~= vecs_alu_view(out@)
                + spec_chunks(events@.skip(start as int), size as int),
            start >= n ==> spec_chunks(events@, size as int) =~~= vecs_alu_view(out@),
        decreases n - start,
    {
        let end = if n - start < size {
            n
        } else {
            start + size
        };
        let mut chunk: Vec<AluEvent> = Vec::new();
        let mut j: usize = start;
        while j < end
            invariant
                start <= j <= end,
                end <= n,
                n == events@.len(),
                chunk@ =~= events@.subrange(start as int, j as int),
            decreases end - j,
        {
            chunk.push(events[j]);
            proof {
                assert(chunk@ =~= events@.subrange(start as int, j + 1));
            }
            j = j + 1;
        }
        let ghost rest = events@.skip(start as int);
        let ghost before_out = vecs_alu_view(out@);
        let ghost chunkv = chunk@;
        out.push(chunk);
        proof {
            reveal(spec_chunks);
            assert(vecs_alu_view(out@) =~~= before_out.push(chunkv));
            if rest.len() <= size {
                assert(end == n);
                assert(chunkv =~= rest);
                assert(spec_chunks(rest, size as int) == seq![rest]);
                assert(before_out + spec_chunks(rest, size as int) =~~= before_out.push(rest));
                assert(spec_chunks(events@, size as int) =~~= vecs_alu_view(out@));
            } else {
                assert(end == start + size);
                assert(chunkv =~= rest.take(size as int));
                assert(rest.skip(size as int) =~= events@.skip(start + size));
                assert(spec_chunks(rest, size as int) == seq![rest.take(size as int)]
                    + spec_chunks(rest.skip(size as int), size as int));
                assert(before_out + spec_chunks(rest, size as int) =~~= before_out.push(
                    rest.take(size as int),
                ) + spec_chunks(events@.skip(start + size), size as int));
                assert(spec_chunks(events@, size as int) =~~= vecs_alu_view(out@) + spec_chunks(
                    events@.skip(start + size),
                    size as int,
                ));
            }
        }
        start = end;
    }
    proof {
        assert(vecs_alu_view(out@) =~~= spec_chunks(events@, size as int));
    }
    out
}

/// The contents view of a sequence of event vectors.
pub open spec fn vecs_alu_view(s: Seq<Vec<AluEvent>>) -> Seq<Seq<AluEvent>> {
    Seq::new(s.len(), |i: int| s[i]@)
}

/// The interaction message of one machine event: the opcode identifier and
/// the three operand words in sixteen-bit limbs.
pub open spec fn spec_msg_of_event(e: AluEvent) -> Seq<u64> {
    seq![
        spec_opcode_id(e.opcode),
        (e.a % 0x10000) as u64,
        (e.a / 0x10000) as u64,
        (e.b % 0x10000) as u64,
        (e.b / 0x10000) as u64,
        (e.c % 0x10000) as u64,
        (e.c / 0x10000) as u64,
    ]
}

/// The fingerprint of a message under a challenge: the message limbs folded
/// into the extension field by repeated multiply-and-add.
#[verifier::opaque]
pub open spec fn spec_fp(msg: Seq<u64>, gamma: Ext4) -> Ext4
    decreases msg.len(),
{
    if msg.len() == 0 {
        spec_ext_zero()
    } else {
        spec_ext_mul(
            spec_ext_add(spec_fp(msg.drop_last(), gamma), spec_ext_embed(msg.last())),
            gamma,
        )
    }
}

pub proof fn lemma_fp_valid(msg: Seq<u64>, gamma: Ext4)
    ensures
        ext_valid(spec_fp(msg, gamma)),
    decreases msg.len(),
{
    reveal(spec_fp);
    if msg.len() > 0 {
        lemma_fp_valid(msg.drop_last(), gamma);
        crate::field::lemma_ext_mul_valid(
            spec_ext_add(spec_fp(msg.drop_last(), gamma), spec_ext_embed(msg.last())),
            gamma,
        );
    }
}

pub fn chip_sign(k: ChipKind) -> (r: Option<bool>)
    ensures
        r == spec_chip_sign(k),
{
    match k {
        ChipKind::Cpu => Some(true),
        ChipKind::Add => Some(false),
        ChipKind::Sub => Some(false),
        ChipKind::Bitwise => Some(false),
        ChipKind::DivRem => Some(false),
        ChipKind::Mul => Some(false),
        ChipKind::ShiftRight => Some(false),
        ChipKind::ShiftLeft => Some(false),
        ChipKind::Lt => Some(false),
        _ => None,
    }
}

/// The contribution of one trace row to its chip's cumulative sum: the
/// signed fingerprint of the row's message columns, for real rows of an
/// interacting chip; zero otherwise.
#[verifier::opaque]
pub open spec fn spec_row_contrib(k: ChipKind, row: Seq<u64>, gamma: Ext4) -> Ext4 {
    match spec_chip_sign(k) {
        Some(positive) => {
            if row.len() == 10 && row[9] == 1 {
                let f = spec_fp(row.subrange(2, 9), gamma);
                if positive {
                    f
                } else {
                    spec_ext_neg(f)
                }
            } else {
                spec_ext_zero()
            }
        },
        None => spec_ext_zero(),
    }
}

/// The cumulative sum of a chip over a sequence of trace rows.
#[verifier::opaque]
pub open spec fn spec_rows_sum(k: ChipKind, rows: Seq<Seq<u64>>, gamma: Ext4) -> Ext4 {
    spec_ext_sum(Seq::new(rows.len(), |i: int| spec_row_contrib(k, rows[i], gamma)))
}

/// Computes a chip's cumulative sum over one shard trace.
pub fn cumulative_sum(k: ChipKind, t: &Trace, gamma: Ext4) -> (r: Ext4)
    requires
        trace_wf(*t),
        ext_valid(gamma),
    ensures
        r == spec_rows_sum(k, rows_view(*t), gamma),
        ext_valid(r),
{
    proof {
        reveal(spec_rows_sum);
    }
    let ghost contribs = Seq::new(
        rows_view(*t).len(),
        |i: int| spec_row_contrib(k, rows_view(*t)[i], gamma),
    );
    let sign = chip_sign(k);
    let mut acc = ext_zero();
    let mut i: usize = 0;
    while i < t.rows.len()
        invariant
            i <= t.rows@.len(),
            trace_wf(*t),
            ext_valid(gamma),
            contribs == Seq::new(
                rows_view(*t).len(),
                |j: int| spec_row_contrib(k, rows_view(*t)[j], gamma),
            ),
            sign == spec_chip_sign(k),
            acc == spec_ext_sum(contribs.take(i as int)),
            ext_valid(acc),
        decreases t.rows@.len() - i,
    {
        let row = &t.rows[i];
        let delta: Ext4 = match sign {
            Some(positive) => {
                if row.len() == 10 && row[9] == 1 {
                    let mut f = ext_zero();
                    proof {
                        reveal(spec_fp);
                        assert(row@.subrange(2, 2) =~= Seq::<u64>::empty());
                    }
                    let mut j: usize = 2;
                    while j < 9
                        invariant
                            2 <= j <= 9,
                            trace_wf(*t),
                            ext_valid(gamma),
                            i < t.rows@.len(),
                            row == &t.rows@[i as int],
                            row@.len() == 10,
                            f == spec_fp(row@.subrange(2, j as int), gamma),
                            ext_valid(f),
                        decreases 9 - j,
                    {
                        proof {
                            reveal(spec_fp);
                            assert(fe_valid(row@[j as int]));
                            assert(row@.subrange(2, j + 1).drop_last() =~= row@.subrange(
                                2,
                                j as int,
                            ));
                            assert(row@.subrange(2, j + 1).last() == row@[j as int]);
                        }
                        f = ext_mul(ext_add(f, ext_embed(row[j])), gamma);
                        j = j + 1;
                    }
                    if positive {
                        f
                    } else {
                        ext_neg(f)
                    }
                } else {
                    ext_zero()
                }
            },
            None => ext_zero(),
        };
        proof {
            reveal(spec_row_contrib);
            assert(rows_view(*t)[i as int] == t.rows@[i as int]@);
            assert(delta == spec_row_contrib(k, rows_view(*t)[i as int], gamma));
            assert(contribs.take(i + 1).drop_last() =~= contribs.take(i as int));
            assert(contribs.take(i + 1).last() == contribs[i as int]);
        }
        acc = ext_add(acc, delta);
        i = i + 1;
    }
    proof {
        assert(contribs.take(contribs.len() as int) =~= contribs);
    }
    acc
}

/// The signed fingerprint of one event.
pub open spec fn spec_event_contrib(positive: bool, e: AluEvent, gamma: Ext4) -> Ext4 {
    if positive {
        spec_fp(spec_msg_of_event(e), gamma)
    } else {
        spec_ext_neg(spec_fp(spec_msg_of_event(e), gamma))
    }
}

/// The signed fingerprint sum of a list of events.
#[verifier::opaque]
pub open spec fn spec_events_sum(positive: bool, s: Seq<AluEvent>, gamma: Ext4) -> Ext4 {
    spec_ext_sum(Seq::new(s.len(), |i: int| spec_event_contrib(positive, s[i], gamma)))
}

pub proof fn lemma_events_sum_valid(positive: bool, s: Seq<AluEvent>, gamma: Ext4)
    ensures
        ext_valid(spec_events_sum(positive, s, gamma)),
{
    reveal(spec_events_sum);
    crate::field::lemma_ext_sum_valid(
        Seq::new(s.len(), |i: int| spec_event_contrib(positive, s[i], gamma)),
    );
}

/// A chip's cumulative sum over its padded trace rows equals the signed
/// fingerprint sum of the events the rows encode.
#[verifier::rlimit(80)]
pub proof fn lemma_rows_sum_events(
    k: ChipKind,
    rows: Seq<Seq<u64>>,
    events: Seq<AluEvent>,
    gamma: Ext4,
)
    requires
        spec_is_event_chip(k),
        rows.len() >= events.len(),
        rows.take(events.len() as int) == Seq::new(
            events.len(),
            |i: int| spec_alu_row(events[i]),
        ),
        forall|i: int|
            events.len() <= i < rows.len() ==> #[trigger] rows[i] == spec_zero_row(10),
    ensures
        spec_rows_sum(k, rows, gamma) == spec_events_sum(k == ChipKind::Cpu, events, gamma),
    decreases rows.len(),
{
    reveal(spec_rows_sum);
    reveal(spec_row_contrib);
    reveal(spec_events_sum);
    let contribs = Seq::new(rows.len(), |i: int| spec_row_contrib(k, rows[i], gamma));
    let positive = k == ChipKind::Cpu;
    let ev_contribs = Seq::new(
        events.len(),
        |i: int| spec_event_contrib(positive, events[i], gamma),
    );
    if rows.len() == 0 {
        assert(contribs =~= Seq::<Ext4>::empty());
        assert(ev_contribs =~= Seq::<Ext4>::empty());
    } else if rows.len() > events.len() {
        let shorter = rows.drop_last();
        assert(shorter.take(events.len() as int) =~= rows.take(events.len() as int));
        lemma_rows_sum_events(k, shorter, events, gamma);
        assert(rows.last() == spec_zero_row(10));
        assert(spec_row_contrib(k, rows.last(), gamma) == spec_ext_zero()) by {
            assert(spec_zero_row(10)[9] == 0);
        }
        let shorter_contribs = Seq::new(
            shorter.len(),
            |i: int| spec_row_contrib(k, shorter[i], gamma),
        );
        assert(contribs.drop_last() =~= shorter_contribs);
        assert(contribs.last() == spec_ext_zero());
        assert(spec_ext_sum(contribs) == spec_ext_add(
            spec_ext_sum(shorter_contribs),
            spec_ext_zero(),
        ));
        crate::field::lemma_ext_sum_valid(shorter_contribs);
        crate::field::lemma_ext_add_zero(spec_ext_sum(shorter_contribs));
    } else {
        let shorter = rows.drop_last();
        let ev_shorter = events.drop_last();
        assert(shorter.take(ev_shorter.len() as int) =~= Seq::new(
            ev_shorter.len(),
            |i: int| spec_alu_row(ev_shorter[i]),
        )) by {
            assert forall|i: int| 0 <= i < ev_shorter.len() implies shorter.take(
                ev_shorter.len() as int,
            )[i] == spec_alu_row(ev_shorter[i]) by {
                assert(rows.take(events.len() as int)[i] == spec_alu_row(events[i]));
            }
        }
        lemma_rows_sum_events(k, shorter, ev_shorter, gamma);
        let last_row = rows.last();
        assert(last_row == spec_alu_row(events.last())) by {
            assert(rows.take(events.len() as int)[events.len() - 1] == spec_alu_row(
                events[events.len() - 1],
            ));
        }
        assert(spec_row_contrib(k, last_row, gamma) == spec_event_contrib(
            positive,
            events.last(),
            gamma,
        )) by {
            assert(last_row.len() == 10);
            assert(last_row[9] == 1);
            assert(last_row.subrange(2, 9) =~= spec_msg_of_event(events.last()));
            assert(spec_chip_sign(k) == Some(positive));
        }
        let shorter_contribs = Seq::new(
            shorter.len(),
            |i: int| spec_row_contrib(k, shorter[i], gamma),
        );
        let ev_shorter_contribs = Seq::new(
            ev_shorter.len(),
            |i: int| spec_event_contrib(positive, events[i], gamma),
        );
        assert(contribs.drop_last() =~= shorter_contribs);
        assert(ev_contribs.drop_last() =~= Seq::new(
            ev_shorter.len(),
            |i: int| spec_event_contrib(positive, ev_shorter[i], gamma),
        ));
    }
}

/// Receiving is the negation of sending: the receiving sum of a list is the
/// negation of its sending sum.
pub proof fn lemma_events_sum_neg(s: Seq<AluEvent>, gamma: Ext4)
    ensures
        spec_events_sum(false, s, gamma) == spec_ext_neg(spec_events_sum(true, s, gamma)),
{
    reveal(spec_events_sum);
    let pos = Seq::new(s.len(), |i: int| spec_event_contrib(true, s[i], gamma));
    let neg = Seq::new(s.len(), |i: int| spec_event_contrib(false, s[i], gamma));
    assert(neg =~= pos.map_values(|e: Ext4| spec_ext_neg(e)));
    assert forall|i: int| 0 <= i < pos.len() implies ext_valid(#[trigger] pos[i]) by {
        lemma_fp_valid(spec_msg_of_event(s[i]), gamma);
    }
    crate::field::lemma_ext_sum_neg(pos);
}

/// The per-class sending sums of a list of events.
pub open spec fn spec_class_sums(s: Seq<AluEvent>, gamma: Ext4) -> Seq<Ext4> {
    Seq::new(
        8,
        |i: int| spec_events_sum(true, spec_filter_class(s, spec_alu_chips()[i]), gamma),
    )
}

/// The processor's sending sum splits exactly into the eight per-class
/// sending sums.
pub proof fn lemma_class_partition(s: Seq<AluEvent>, gamma: Ext4)
    ensures
        spec_events_sum(true, s, gamma) == spec_ext_sum(spec_class_sums(s, gamma)),
    decreases s.len(),
{
    reveal(spec_events_sum);
    if s.len() == 0 {
        assert forall|i: int| 0 <= i < 8 implies #[trigger] spec_class_sums(s, gamma)[i]
            == spec_ext_zero() by {
            assert(spec_filter_class(s, spec_alu_chips()[i]).len() == 0);
            assert(Seq::new(0, |j: int| spec_event_contrib(true, s[j], gamma))
                =~= Seq::<Ext4>::empty());
            assert(Seq::new(
                spec_filter_class(s, spec_alu_chips()[i]).len(),
                |j: int|
                    spec_event_contrib(true, spec_filter_class(s, spec_alu_chips()[i])[j], gamma),
            ) =~= Seq::<Ext4>::empty());
        }
        assert(Seq::new(s.len(), |i: int| spec_event_contrib(true, s[i], gamma))
            =~= Seq::<Ext4>::empty());
        lemma_sum_of_zeros(spec_class_sums(s, gamma));
    } else {
        let e = s.last();
        let prior = s.drop_last();
        lemma_class_partition(prior, gamma);
        lemma_class_index(e.opcode);
        let idx = spec_class_index(e.opcode);
        let x = spec_event_contrib(true, e, gamma);
        assert forall|i: int| 0 <= i < 8 && i != idx implies #[trigger] spec_class_sums(
            s,
            gamma,
        )[i] == spec_class_sums(prior, gamma)[i] by {
            assert(spec_filter_class(s, spec_alu_chips()[i]) == spec_filter_class(
                prior,
                spec_alu_chips()[i],
            ));
        }
        assert(spec_class_sums(s, gamma)[idx] == spec_ext_add(
            spec_class_sums(prior, gamma)[idx],
            x,
        )) by {
            let k0 = spec_alu_chips()[idx];
            let f = spec_filter_class(s, k0);
            let fp = spec_filter_class(prior, k0);
            assert(f == fp.push(e));
            let fc = Seq::new(f.len(), |j: int| spec_event_contrib(true, f[j], gamma));
            let fpc = Seq::new(fp.len(), |j: int| spec_event_contrib(true, fp[j], gamma));
            assert(fc.drop_last() =~= fpc);
            assert(fc.last() == x);
        }
        assert(spec_class_sums(s, gamma) =~= spec_class_sums(prior, gamma).update(
            idx,
            spec_ext_add(spec_class_sums(prior, gamma)[idx], x),
        ));
        assert forall|i: int| 0 <= i < 8 implies ext_valid(
            #[trigger] spec_class_sums(prior, gamma)[i],
        ) by {
            lemma_events_sum_valid(true, spec_filter_class(prior, spec_alu_chips()[i]), gamma);
        }
        assert(ext_valid(x)) by {
            lemma_fp_valid(spec_msg_of_event(e), gamma);
        }
        crate::field::lemma_ext_sum_bump(spec_class_sums(prior, gamma), idx, x);
        let sc = Seq::new(s.len(), |i: int| spec_event_contrib(true, s[i], gamma));
        let pc = Seq::new(prior.len(), |i: int| spec_event_contrib(true, prior[i], gamma));
        assert(sc.drop_last() =~= pc);
        assert(sc.last() == x);
    }
}

proof fn lemma_sum_of_zeros(s: Seq<Ext4>)
    requires
        forall|i: int| 0 <= i < s.len() ==> #[trigger] s[i] == spec_ext_zero(),
    ensures
        spec_ext_sum(s) == spec_ext_zero(),
    decreases s.len(),
{
    if s.len() > 0 {
        lemma_sum_of_zeros(s.drop_last());
        crate::field::lemma_ext_add_zero(spec_ext_zero());
    }
}

/// Splitting a list into chunks splits its signed fingerprint sum.
#[verifier::rlimit(80)]
pub proof fn lemma_chunks_sum(positive: bool, s: Seq<AluEvent>, size: int, gamma: Ext4)
    requires
        size >= 1,
    ensures
        spec_ext_sum(
            Seq::new(
                spec_chunks(s, size).len(),
                |i: int| spec_events_sum(positive, spec_chunks(s, size)[i], gamma),
            ),
        ) == spec_events_sum(positive, s, gamma),
    decreases s.len(),
{
    reveal(spec_events_sum);
    reveal(spec_chunks);
    let cs = spec_chunks(s, size);
    let sums = Seq::new(cs.len(), |i: int| spec_events_sum(positive, cs[i], gamma));
    if s.len() <= size {
        assert(cs == seq![s]);
        assert(sums =~= seq![spec_events_sum(positive, s, gamma)]);
        lemma_events_sum_valid(positive, s, gamma);
        crate::field::lemma_ext_sum_singleton(spec_events_sum(positive, s, gamma));
    } else {
        let head = s.take(size);
        let tail = s.skip(size);
        lemma_chunks_sum(positive, tail, size, gamma);
        let tcs = spec_chunks(tail, size);
        let tsums = Seq::new(tcs.len(), |i: int| spec_events_sum(positive, tcs[i], gamma));
        assert(sums =~= seq![spec_events_sum(positive, head, gamma)] + tsums) by {
            assert forall|i: int| 0 <= i < sums.len() implies sums[i] == (seq![
                spec_events_sum(positive, head, gamma),
            ] + tsums)[i] by {
                if i > 0 {
                    assert(cs[i] == tcs[i - 1]);
                }
            }
        }
        assert forall|i: int| 0 <= i < tsums.len() implies ext_valid(#[trigger] tsums[i]) by {
            lemma_events_sum_valid(positive, tcs[i], gamma);
        }
        lemma_events_sum_valid(positive, head, gamma);
        assert(forall|i: int|
            0 <= i < seq![spec_events_sum(positive, head, gamma)].len() ==> ext_valid(
                #[trigger] seq![spec_events_sum(positive, head, gamma)][i],
            ));
        crate::field::lemma_ext_sum_concat(seq![spec_events_sum(positive, head, gamma)], tsums);
        crate::field::lemma_ext_sum_singleton(spec_events_sum(positive, head, gamma));
        let hc = Seq::new(head.len(), |i: int| spec_event_contrib(positive, head[i], gamma));
        let tc = Seq::new(tail.len(), |i: int| spec_event_contrib(positive, tail[i], gamma));
        let sc = Seq::new(s.len(), |i: int| spec_event_contrib(positive, s[i], gamma));
        assert(sc =~= hc + tc);
        assert forall|i: int| 0 <= i < hc.len() implies ext_valid(#[trigger] hc[i]) by {
            lemma_fp_valid(spec_msg_of_event(head[i]), gamma);
        }
        assert forall|i: int| 0 <= i < tc.len() implies ext_valid(#[trigger] tc[i]) by {
            lemma_fp_valid(spec_msg_of_event(tail[i]), gamma);
        }
        crate::field::lemma_ext_sum_concat(hc, tc);
    }
}

fn copy_alu_vec(v: &Vec<AluEvent>) -> (r: Vec<AluEvent>)
    ensures
        r@ == v@,
{
    let mut out: Vec<AluEvent> = Vec::new();
    let mut i: usize = 0;
    while i < v.len()
        invariant
            i <= v@.len(),
            out@ =~= v@.take(i as int),
        decreases v@.len() - i,
    {
        out.push(v[i]);
        i = i + 1;
    }
    proof {
        assert(v@.take(v@.len() as int) =~= v@);
    }
    out
}

fn copy_instr_vec(v: &Vec<Instruction>) -> (r: Vec<Instruction>)
    ensures
        r@ == v@,
{
    let mut out: Vec<Instruction> = Vec::new();
    let mut i: usize = 0;
    while i < v.len()
        invariant
            i <= v@.len(),
            out@ =~= v@.take(i as int),
        decreases v@.len() - i,
    {
        out.push(v[i]);
        i = i + 1;
    }
    proof {
        assert(v@.take(v@.len() as int) =~= v@);
    }
    out
}

fn copy_byte_vec(v: &Vec<ByteLookupEvent>) -> (r: Vec<ByteLookupEvent>)
    ensures
        r@ == v@,
{
    let mut out: Vec<ByteLookupEvent> = Vec::new();
    let mut i: usize = 0;
    while i < v.len()
        invariant
            i <= v@.len(),
            out@ =~= v@.take(i as int),
        decreases v@.len() - i,
    {
        out.push(v[i]);
        i = i + 1;
    }
    proof {
        assert(v@.take(v@.len() as int) =~= v@);
    }
    out
}

fn chip_record_of(k: ChipKind, events: Vec<AluEvent>) -> (r: ExecutionRecord)
    requires
        spec_is_event_chip(k),
    ensures
        spec_chip_alu_events(r, k) == events@,
        r.program@.len() == 0,
        r.byte_lookups@.len() == 0,
        events@.len() <= 0x100000 ==> record_sized(r),
{
    let mut rec = ExecutionRecord::new();
    match k {
        ChipKind::Cpu => {
            rec.cpu_events = events;
        },
        ChipKind::Add => {
            rec.add_events = events;
        },
        ChipKind::Sub => {
            rec.sub_events = events;
        },
        ChipKind::Bitwise => {
            rec.bitwise_events = events;
        },
        ChipKind::DivRem => {
            rec.divrem_events = events;
        },
        ChipKind::Mul => {
            rec.mul_events = events;
        },
        ChipKind::ShiftRight => {
            rec.shift_right_events = events;
        },
        ChipKind::ShiftLeft => {
            rec.shift_left_events = events;
        },
        _ => {
            rec.lt_events = events;
        },
    }
    rec
}

/// Partitions a chip's slice of the record into shard records: chips that
/// trace machine events split their event list into chunks of at most the
/// shard size; the other chips keep their whole slice in a single shard.
/// Concatenating the shards in order reconstructs the original event order.
pub fn shard_record(k: ChipKind, r: &ExecutionRecord, shard_size: usize) -> (shards: Vec<
    ExecutionRecord,
>)
    requires
        shard_size >= 1,
        record_sized(*r),
    ensures
        shards@.len() >= 1,
        forall|i: int| 0 <= i < shards@.len() ==> record_sized(#[trigger] shards@[i]),
        spec_is_event_chip(k) ==> {
            let cs = spec_chunks(spec_chip_alu_events(*r, k), shard_size as int);
            &&& shards@.len() == cs.len()
            &&& forall|i: int|
                0 <= i < cs.len() ==> spec_chip_alu_events(#[trigger] shards@[i], k) == cs[i]
        },
        !spec_is_event_chip(k) ==> shards@.len() == 1 && spec_chip_rows(shards@[0], k)
            == spec_chip_rows(*r, k),
{
    let mut shards: Vec<ExecutionRecord> = Vec::new();
    match k {
        ChipKind::Cpu
        | ChipKind::Add
        | ChipKind::Sub
        | ChipKind::Bitwise
        | ChipKind::DivRem
        | ChipKind::Mul
        | ChipKind::ShiftRight
        | ChipKind::ShiftLeft
        | ChipKind::Lt => {
            let events = chip_alu_events(k, r);
            let mut chunks = chunk_events(events, shard_size);
            let ghost cs = spec_chunks(events@, shard_size as int);
            proof {
                lemma_chunks_props(events@, shard_size as int);
            }
            let total = chunks.len();
            let mut i: usize = 0;
            while i < total
                invariant
                    i <= total,
                    total == chunks@.len(),
                    spec_is_event_chip(k),
                    cs == vecs_alu_view(chunks@),
                    cs == spec_chunks(spec_chip_alu_events(*r, k), shard_size as int),
                    forall|j: int| 0 <= j < cs.len() ==> (#[trigger] cs[j]).len() <= 0x100000,
                    shards@.len() == i,
                    forall|j: int|
                        0 <= j < i ==> spec_chip_alu_events(#[trigger] shards@[j], k) == cs[j],
                    forall|j: int| 0 <= j < i ==> record_sized(#[trigger] shards@[j]),
                decreases total - i,
            {
                let chunk = copy_alu_vec(&chunks[i]);
                proof {
                    assert(cs[i as int] == chunks@[i as int]@);
                    assert(chunk@.len() <= 0x100000);
                }
                let rec = chip_record_of(k, chunk);
                shards.push(rec);
                i = i + 1;
            }
        },
        ChipKind::Program => {
            let mut rec = ExecutionRecord::new();
            rec.program = copy_instr_vec(&r.program);
            shards.push(rec);
            proof {
                assert(spec_chip_rows(shards@[0], k) =~= spec_chip_rows(*r, k));
            }
        },
        ChipKind::Byte => {
            let mut rec = ExecutionRecord::new();
            rec.byte_lookups = copy_byte_vec(&r.byte_lookups);
            shards.push(rec);
            proof {
                assert(spec_chip_rows(shards@[0], k) =~= spec_chip_rows(*r, k));
            }
        },
        _ => {
            shards.push(ExecutionRecord::new());
            proof {
                assert(spec_chip_rows(shards@[0], k) =~= spec_chip_rows(*r, k));
            }
        },
    }
    shards
}

/// A chip with no interaction contributes a zero sum over any rows.
pub proof fn lemma_rows_sum_none(k: ChipKind, rows: Seq<Seq<u64>>, gamma: Ext4)
    requires
        spec_chip_sign(k) is None,
    ensures
        spec_rows_sum(k, rows, gamma) == spec_ext_zero(),
{
    reveal(spec_rows_sum);
    reveal(spec_row_contrib);
    let contribs = Seq::new(rows.len(), |i: int| spec_row_contrib(k, rows[i], gamma));
    assert(forall|i: int| 0 <= i < contribs.len() ==> #[trigger] contribs[i] == spec_ext_zero());
    crate::field::lemma_ext_sum_zeros(contribs);
}

/// The fill pass derives four byte lookups per event.
pub proof fn lemma_fill_of_len(s: Seq<AluEvent>)
    ensures
        spec_fill_of(s).len() == 4 * s.len(),
    decreases s.len(),
{
    if s.len() > 0 {
        lemma_fill_of_len(s.drop_last());
    }
}

/// The cross-table cancellation law: over any consistent event log, the
/// twenty per-chip cumulative-sum totals cancel to zero — the processor
/// sends exactly what the eight arithmetic-logic chips receive, and every
/// other chip contributes nothing.
pub proof fn lemma_cross_table_cancellation(v: Seq<Ext4>, cpu: Seq<AluEvent>, gamma: Ext4)
    requires
        v.len() == 20,
        v[1] == spec_events_sum(true, cpu, gamma),
        forall|j: int|
            0 <= j < 8 ==> v[10 + j] == spec_ext_neg(#[trigger] spec_class_sums(cpu, gamma)[j]),
        forall|q: int|
            0 <= q < 20 && q != 1 && !(10 <= q < 18) ==> #[trigger] v[q] == spec_ext_zero(),
    ensures
        spec_ext_sum(v) == spec_ext_zero(),
{
    let s = spec_events_sum(true, cpu, gamma);
    let w = spec_class_sums(cpu, gamma);
    lemma_events_sum_valid(true, cpu, gamma);
    assert forall|j: int| 0 <= j < 8 implies ext_valid(#[trigger] w[j]) by {
        lemma_events_sum_valid(true, spec_filter_class(cpu, spec_alu_chips()[j]), gamma);
    }
    lemma_class_partition(cpu, gamma);
    let a = v.take(10);
    let b = v.subrange(10, 18);
    let c = v.subrange(18, 20);
    assert(v =~= a + b + c);
    assert(spec_ext_sum(a) == s) by {
        crate::field::lemma_ext_sum_single(a, 1);
    }
    assert(b =~= w.map_values(|e: Ext4| spec_ext_neg(e)));
    assert(spec_ext_sum(b) == spec_ext_neg(spec_ext_sum(w))) by {
        crate::field::lemma_ext_sum_neg(w);
    }
    assert(spec_ext_sum(c) == spec_ext_zero()) by {
        crate::field::lemma_ext_sum_zeros(c);
    }
    assert forall|j: int| 0 <= j < a.len() implies ext_valid(#[trigger] a[j]) by {
        if j == 1 {
        } else {
        }
    }
    assert forall|j: int| 0 <= j < b.len() implies ext_valid(#[trigger] b[j]) by {
        assert(b[j] == spec_ext_neg(w[j]));
    }
    assert forall|j: int| 0 <= j < c.len() implies ext_valid(#[trigger] c[j]) by {
    }
    crate::field::lemma_ext_sum_concat(a, b);
    assert forall|j: int| 0 <= j < (a + b).len() implies ext_valid(#[trigger] (a + b)[j]) by {
        if j < a.len() {
            assert((a + b)[j] == a[j]);
        } else {
            assert((a + b)[j] == b[j - a.len()]);
        }
    }
    crate::field::lemma_ext_sum_concat(a + b, c);
    assert(v == (a + b) + c) by {
        assert(v =~= (a + b) + c);
    }
    assert(spec_ext_sum(v) == spec_ext_add(
        spec_ext_add(s, spec_ext_neg(s)),
        spec_ext_zero(),
    ));
    crate::field::lemma_ext_add_neg(s);
    crate::field::lemma_ext_add_zero(spec_ext_zero());
}

/// Every chip's trace is between one and eleven columns wide.
pub proof fn lemma_chip_width_bound(k: ChipKind)
    ensures
        1 <= spec_chip_width(k) <= 11,
{
}

/// Chunking never yields more chunks than events (one chunk for an empty
/// list).
pub proof fn lemma_chunks_count(s: Seq<AluEvent>, size: int)
    requires
        size >= 1,
    ensures
        spec_chunks(s, size).len() <= if s.len() == 0 {
            1
        } else {
            s.len() as int
        },
    decreases s.len(),
{
    reveal(spec_chunks);
    if s.len() > size {
        lemma_chunks_count(s.skip(size), size);
    }
}

/// The total length of a list of chunks.
pub open spec fn spec_lens_sum(cs: Seq<Seq<AluEvent>>) -> int
    decreases cs.len(),
{
    if cs.len() == 0 {
        0
    } else {
        spec_lens_sum(cs.drop_last()) + cs.last().len()
    }
}

/// Chunk lengths add up to the chunked list's length.
pub proof fn lemma_chunks_lens_sum(s: Seq<AluEvent>, size: int)
    requires
        size >= 1,
    ensures
        spec_lens_sum(spec_chunks(s, size)) == s.len(),
    decreases s.len(),
{
    reveal(spec_chunks);
    let cs = spec_chunks(s, size);
    if s.len() <= size {
        assert(cs == seq![s]);
        assert(cs.drop_last() =~= Seq::<Seq<AluEvent>>::empty());
        assert(spec_lens_sum(Seq::<Seq<AluEvent>>::empty()) == 0);
        assert(cs.last() == s);
        assert(spec_lens_sum(cs) == s.len());
    } else {
        lemma_chunks_lens_sum(s.skip(size), size);
        let rest = spec_chunks(s.skip(size), size);
        assert(cs == seq![s.take(size)] + rest);
        lemma_lens_sum_prepend(s.take(size), rest);
        assert(spec_lens_sum(cs) == s.take(size).len() + spec_lens_sum(rest));
    }
}

/// Prepending one chunk adds its length to the total.
proof fn lemma_lens_sum_prepend(c: Seq<AluEvent>, cs: Seq<Seq<AluEvent>>)
    ensures
        spec_lens_sum(seq![c] + cs) == c.len() + spec_lens_sum(cs),
    decreases cs.len(),
{
    if cs.len() == 0 {
        assert(seq![c] + cs =~= seq![c]);
        assert(seq![c].drop_last() =~= Seq::<Seq<AluEvent>>::empty());
        assert(spec_lens_sum(Seq::<Seq<AluEvent>>::empty()) == 0);
        assert(seq![c].last() == c);
        assert(spec_lens_sum(seq![c]) == c.len());
    } else {
        assert((seq![c] + cs).drop_last() =~= seq![c] + cs.drop_last());
        assert((seq![c] + cs).last() == cs.last());
        lemma_lens_sum_prepend(c, cs.drop_last());
        assert(spec_lens_sum(seq![c] + cs) == spec_lens_sum(seq![c] + cs.drop_last())
            + cs.last().len());
    }
}

/// Every event belongs to exactly one opcode class, so the class lists of a
/// consistent record partition the processor's event count.
pub proof fn lemma_filter_lens_partition(s: Seq<AluEvent>)
    ensures
        spec_filter_class(s, ChipKind::Add).len() + spec_filter_class(s, ChipKind::Sub).len()
            + spec_filter_class(s, ChipKind::Bitwise).len() + spec_filter_class(
            s,
            ChipKind::DivRem,
        ).len() + spec_filter_class(s, ChipKind::Mul).len() + spec_filter_class(
            s,
            ChipKind::ShiftRight,
        ).len() + spec_filter_class(s, ChipKind::ShiftLeft).len() + spec_filter_class(
            s,
            ChipKind::Lt,
        ).len() == s.len(),
    decreases s.len(),
{
    if s.len() > 0 {
        lemma_filter_lens_partition(s.drop_last());
    }
}

/// Rows padded with zero rows to the power-of-two height.
pub open spec fn spec_padded_rows(rows: Seq<Seq<u64>>, w: int) -> Seq<Seq<u64>> {
    rows + Seq::new(
        (crate::trace::spec_npo2(rows.len() as int) - rows.len()) as nat,
        |i: int| spec_zero_row(w),
    )
}

/// A trace's serialization, over its width and row contents.
pub proof fn lemma_trace_bytes_view(t: Trace)
    ensures
        crate::trace::spec_trace_bytes(t) == crate::trace::spec_trace_bytes_rows(
            t.width as int,
            rows_view(t),
        ),
{
    assert(t.rows@.map_values(|r: Vec<u64>| r@) =~= rows_view(t));
}

/// A trace whose prefix, padding, and height are pinned has exactly the
/// padded row matrix.
pub proof fn lemma_rows_view_padded(t: Trace, rows: Seq<Seq<u64>>, w: int)
    requires
        rows_view(t).len() >= rows.len(),
        rows_view(t).take(rows.len() as int) == rows,
        forall|q: int|
            rows.len() <= q < rows_view(t).len() ==> #[trigger] rows_view(t)[q] == spec_zero_row(
                w,
            ),
        rows_view(t).len() == crate::trace::spec_npo2(rows.len() as int),
    ensures
        rows_view(t) == spec_padded_rows(rows, w),
{
    crate::trace::lemma_npo2_props(rows.len() as int);
    assert forall|q: int| 0 <= q < rows_view(t).len() implies rows_view(t)[q] == spec_padded_rows(
        rows,
        w,
    )[q] by {
        if q < rows.len() {
            assert(rows_view(t).take(rows.len() as int)[q] == rows[q]);
        }
    }
    assert(rows_view(t) =~= spec_padded_rows(rows, w));
}

} // verus!
