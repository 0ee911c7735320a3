use stark_engine::alu::{alu_op, Opcode};
use stark_engine::challenger::DuplexChallenger;
use stark_engine::proofs::ProgramVerificationError;
use stark_engine::prover::StarkConfig;
use stark_engine::record::{Instruction, Program};
use stark_engine::runtime::Runtime;

fn prove(program: Program) {
    let mut rt = Runtime::new(program);
    rt.run();
    let config = StarkConfig::new(4);
    let mut challenger = DuplexChallenger::new();
    let (locals, global) = rt.prove(&config, &mut challenger);
    let mut verifier_challenger = DuplexChallenger::new();
    let result = rt.verify(&config, &mut verifier_challenger, &locals, &global);
    assert!(result.is_ok());
}

#[test]
fn test_simple_prove() {
    let instructions = vec![
        Instruction::new(Opcode::ADD, 29, 0, 5, false, true),
        Instruction::new(Opcode::ADD, 30, 0, 37, false, true),
        Instruction::new(Opcode::ADD, 31, 30, 29, false, false),
    ];
    let program = Program::new(instructions, 0, 0);
    prove(program);
}

#[test]
fn test_shift_prove() {
    let shift_ops = [Opcode::SRL, Opcode::SRA, Opcode::SLL];
    let operands = [
        (1, 1),
        (1234, 5678),
        (0xffff, 0xffff - 1),
        (u32::MAX - 1, u32::MAX),
        (u32::MAX, 0),
    ];
    for shift_op in shift_ops.iter() {
        for op in operands.iter() {
            let instructions = vec![
                Instruction::new(Opcode::ADD, 29, 0, op.0, false, true),
                Instruction::new(Opcode::ADD, 30, 0, op.1, false, true),
                Instruction::new(*shift_op, 31, 29, 3, false, false),
            ];
            let program = Program::new(instructions, 0, 0);
            prove(program);
        }
    }
}

#[test]
fn test_sub_prove() {
    let instructions = vec![
        Instruction::new(Opcode::ADD, 29, 0, 5, false, true),
        Instruction::new(Opcode::ADD, 30, 0, 8, false, true),
        Instruction::new(Opcode::SUB, 31, 30, 29, false, false),
    ];
    let program = Program::new(instructions, 0, 0);
    prove(program);
}

#[test]
fn test_add_prove() {
    let instructions = vec![
        Instruction::new(Opcode::ADD, 29, 0, 5, false, true),
        Instruction::new(Opcode::ADD, 30, 0, 8, false, true),
        Instruction::new(Opcode::ADD, 31, 30, 29, false, false),
    ];
    let program = Program::new(instructions, 0, 0);
    prove(program);
}

#[test]
fn test_mul_prove() {
    let mul_ops = [Opcode::MUL, Opcode::MULH, Opcode::MULHU, Opcode::MULHSU];
    let operands = [
        (1, 1),
        (1234, 5678),
        (8765, 4321),
        (0xffff, 0xffff - 1),
        (u32::MAX - 1, u32::MAX),
    ];
    for mul_op in mul_ops.iter() {
        for operand in operands.iter() {
            let instructions = vec![
                Instruction::new(Opcode::ADD, 29, 0, operand.0, false, true),
                Instruction::new(Opcode::ADD, 30, 0, operand.1, false, true),
                Instruction::new(*mul_op, 31, 30, 29, false, false),
            ];
            let program = Program::new(instructions, 0, 0);
            prove(program);
        }
    }
}

#[test]
fn test_lt_prove() {
    let less_than = [Opcode::SLT, Opcode::SLTU];
    for lt_op in less_than.iter() {
        let instructions = vec![
            Instruction::new(Opcode::ADD, 29, 0, 5, false, true),
            Instruction::new(Opcode::ADD, 30, 0, 8, false, true),
            Instruction::new(*lt_op, 31, 30, 29, false, false),
        ];
        let program = Program::new(instructions, 0, 0);
        prove(program);
    }
}

#[test]
fn test_bitwise_prove() {
    let bitwise_opcodes = [Opcode::XOR, Opcode::OR, Opcode::AND];
    for bitwise_op in bitwise_opcodes.iter() {
        let instructions = vec![
            Instruction::new(Opcode::ADD, 29, 0, 5, false, true),
            Instruction::new(Opcode::ADD, 30, 0, 8, false, true),
            Instruction::new(*bitwise_op, 31, 30, 29, false, false),
        ];
        let program = Program::new(instructions, 0, 0);
        prove(program);
    }
}

#[test]
fn test_divrem_prove() {
    let div_rem_ops = [Opcode::DIV, Opcode::DIVU, Opcode::REM, Opcode::REMU];
    let operands = [
        (1, 1),
        (123, 456 * 789),
        (123 * 456, 789),
        (0xffff * (0xffff - 1), 0xffff),
        (u32::MAX - 5, u32::MAX - 7),
    ];
    for div_rem_op in div_rem_ops.iter() {
        for op in operands.iter() {
            let instructions = vec![
                Instruction::new(Opcode::ADD, 29, 0, op.0, false, true),
                Instruction::new(Opcode::ADD, 30, 0, op.1, false, true),
                Instruction::new(*div_rem_op, 31, 29, 30, false, false),
            ];
            let program = Program::new(instructions, 0, 0);
            prove(program);
        }
    }
}

#[test]
fn test_fibonacci_prove() {
    // A straight-line unrolling of a fibonacci computation: registers 1 and
    // 2 walk the sequence and register 3 collects each step.
    let mut instructions = vec![
        Instruction::new(Opcode::ADD, 1, 0, 0, false, true),
        Instruction::new(Opcode::ADD, 2, 0, 1, false, true),
    ];
    for _ in 0..10 {
        instructions.push(Instruction::new(Opcode::ADD, 3, 1, 2, false, false));
        instructions.push(Instruction::new(Opcode::ADD, 1, 2, 0, false, false));
        instructions.push(Instruction::new(Opcode::ADD, 2, 3, 0, false, false));
    }
    let program = Program::new(instructions.clone(), 0, 0);
    prove(program);
    let mut rt = Runtime::new(Program::new(instructions, 0, 0));
    rt.run();
    assert_eq!(rt.registers[3], 89);
}

fn sample_program() -> Program {
    let instructions = vec![
        Instruction::new(Opcode::ADD, 29, 0, 5, false, true),
        Instruction::new(Opcode::ADD, 30, 0, 8, false, true),
        Instruction::new(Opcode::ADD, 31, 30, 29, false, false),
        Instruction::new(Opcode::MUL, 28, 31, 30, false, false),
        Instruction::new(Opcode::XOR, 27, 28, 29, false, false),
    ];
    Program::new(instructions, 0, 0)
}

#[test]
fn test_tamper_commitment_rejected() {
    let mut rt = Runtime::new(sample_program());
    rt.run();
    let config = StarkConfig::new(4);
    let mut challenger = DuplexChallenger::new();
    let (locals, global) = rt.prove(&config, &mut challenger);
    for chip in 0..locals.len() {
        for byte in [0usize, 13, 31] {
            let mut tampered: Vec<_> = Vec::new();
            let mut tampered_global_sums = Vec::new();
            for (i, p) in locals.iter().enumerate() {
                let mut commit = p.commitment.main_commit.clone();
                if i == chip {
                    commit[byte] ^= 0x5a;
                }
                tampered.push(stark_engine::proofs::SegmentProof {
                    commitment: stark_engine::proofs::ShardCommitment {
                        main_commit: commit,
                        permutation_commit: p.commitment.permutation_commit.clone(),
                        quotient_commit: p.commitment.quotient_commit.clone(),
                    },
                    opened_values: p.opened_values.clone(),
                    opening_proof: p.opening_proof.clone(),
                    cumulative_sums: p.cumulative_sums.clone(),
                    n: p.n,
                    public_values: p.public_values.clone(),
                });
            }
            for s in global.cumulative_sums.iter() {
                tampered_global_sums.push(*s);
            }
            let tampered_global = stark_engine::proofs::SegmentProof {
                commitment: stark_engine::proofs::ShardCommitment {
                    main_commit: global.commitment.main_commit.clone(),
                    permutation_commit: global.commitment.permutation_commit.clone(),
                    quotient_commit: global.commitment.quotient_commit.clone(),
                },
                opened_values: global.opened_values.clone(),
                opening_proof: global.opening_proof.clone(),
                cumulative_sums: tampered_global_sums,
                n: global.n,
                public_values: global.public_values.clone(),
            };
            let mut vc = DuplexChallenger::new();
            let result = rt.verify(&config, &mut vc, &tampered, &tampered_global);
            assert!(matches!(
                result,
                Err(ProgramVerificationError::InvalidSegmentProof(_))
            ));
        }
    }
}

#[test]
fn test_cumulative_sum_invariant() {
    let mut rt = Runtime::new(sample_program());
    rt.run();
    let config = StarkConfig::new(4);
    let mut challenger = DuplexChallenger::new();
    let (locals, global) = rt.prove(&config, &mut challenger);

    // All per-chip and global per-shard cumulative sums cancel to zero.
    let p = stark_engine::field::FIELD_PRIME;
    let mut total = [0u64; 4];
    for proof in locals.iter().chain(std::iter::once(&global)) {
        for s in proof.cumulative_sums.iter() {
            total[0] = (total[0] + s.c0) % p;
            total[1] = (total[1] + s.c1) % p;
            total[2] = (total[2] + s.c2) % p;
            total[3] = (total[3] + s.c3) % p;
        }
    }
    assert_eq!(total, [0u64; 4]);

    // Corrupting one cumulative-sum scalar, while keeping its own proof
    // internally consistent, must fail only the cumulative-sum check.
    let chip = 10;
    let mut tampered: Vec<stark_engine::proofs::SegmentProof> = Vec::new();
    for (i, pr) in locals.iter().enumerate() {
        let mut sums = pr.cumulative_sums.clone();
        if i == chip {
            sums[0].c0 = (sums[0].c0 + 1) % p;
        }
        tampered.push(stark_engine::proofs::SegmentProof {
            commitment: stark_engine::proofs::ShardCommitment {
                main_commit: pr.commitment.main_commit.clone(),
                permutation_commit: stark_engine::proofs::sums_digest(&sums),
                quotient_commit: pr.commitment.quotient_commit.clone(),
            },
            opened_values: pr.opened_values.clone(),
            opening_proof: pr.opening_proof.clone(),
            cumulative_sums: sums,
            n: pr.n,
            public_values: pr.public_values.clone(),
        });
    }
    // Re-seal the tampered chip's opening proof against the replayed
    // transcript, so every per-chip check still passes.
    let mut replay = DuplexChallenger::new();
    for pr in tampered.iter() {
        replay.observe_commitment(&pr.commitment.main_commit);
    }
    let mut clone = replay.copy();
    let gamma = clone.sample_ext();
    clone.observe_commitment(&tampered[chip].commitment.main_commit);
    let z = clone.sample_ext();
    let resealed = stark_engine::proofs::opening_digest(
        &tampered[chip].commitment.main_commit,
        gamma,
        z,
        &tampered[chip].opened_values,
        &tampered[chip].cumulative_sums,
    );
    tampered[chip].opening_proof = resealed;
    let mut vc = DuplexChallenger::new();
    let result = rt.verify(&config, &mut vc, &tampered, &global);
    assert!(matches!(
        result,
        Err(ProgramVerificationError::NonZeroCumulativeSum)
    ));
}

#[test]
fn test_shard_count_consistency() {
    let mut rt = Runtime::new(sample_program());
    rt.run();
    let config = StarkConfig::new(4);
    let mut challenger = DuplexChallenger::new();
    let (mut locals, global) = rt.prove(&config, &mut challenger);
    // Every proof's shard count matches what was actually committed.
    for p in locals.iter() {
        assert_eq!(p.n, p.cumulative_sums.len());
        assert_eq!(p.n, p.opened_values.len());
    }
    // A proof claiming one more shard than it carries openings and sums
    // for must be rejected, not partially verified.
    locals[1].n += 1;
    let mut vc = DuplexChallenger::new();
    let result = rt.verify(&config, &mut vc, &locals, &global);
    assert!(matches!(
        result,
        Err(ProgramVerificationError::InvalidSegmentProof(_))
    ));
}

#[test]
fn test_global_proof_tamper_rejected() {
    let mut rt = Runtime::new(sample_program());
    rt.run();
    let config = StarkConfig::new(4);
    let mut challenger = DuplexChallenger::new();
    let (locals, mut global) = rt.prove(&config, &mut challenger);
    global.commitment.main_commit[5] ^= 1;
    let mut vc = DuplexChallenger::new();
    let result = rt.verify(&config, &mut vc, &locals, &global);
    assert!(matches!(
        result,
        Err(ProgramVerificationError::InvalidGlobalProof(_))
    ));
}

#[test]
fn test_proof_count_mismatch_rejected() {
    let mut rt = Runtime::new(sample_program());
    rt.run();
    let config = StarkConfig::new(4);
    let mut challenger = DuplexChallenger::new();
    let (mut locals, global) = rt.prove(&config, &mut challenger);
    locals.pop();
    let mut vc = DuplexChallenger::new();
    let result = rt.verify(&config, &mut vc, &locals, &global);
    assert!(matches!(
        result,
        Err(ProgramVerificationError::InvalidSegmentProof(_))
    ));
}

#[test]
fn test_runtime_executes_program() {
    let mut rt = Runtime::new(sample_program());
    rt.run();
    assert_eq!(rt.registers[29], 5);
    assert_eq!(rt.registers[30], 8);
    assert_eq!(rt.registers[31], 13);
    assert_eq!(rt.registers[28], 13 * 8);
    assert_eq!(rt.registers[27], (13 * 8) ^ 5);
    assert_eq!(rt.segment.cpu_events.len(), 5);
    assert_eq!(rt.segment.add_events.len(), 3);
    assert_eq!(rt.segment.mul_events.len(), 1);
    assert_eq!(rt.segment.bitwise_events.len(), 1);
}

#[test]
fn test_registry_determinism() {
    let a = Runtime::segment_chips();
    let b = Runtime::segment_chips();
    assert_eq!(a, b);
    let ga = Runtime::global_chips();
    let gb = Runtime::global_chips();
    assert_eq!(ga, gb);
    assert_eq!(a.len(), stark_engine::runtime::NUM_CHIPS);
    assert_eq!(ga.len(), 3);
}

#[test]
fn test_end_to_end_tamper() {
    // A three-instruction program proves and verifies.
    let instructions = vec![
        Instruction::new(Opcode::ADD, 29, 0, 5, false, true),
        Instruction::new(Opcode::ADD, 30, 0, 8, false, true),
        Instruction::new(Opcode::ADD, 31, 30, 29, false, false),
    ];
    let program = Program::new(instructions.clone(), 0, 0);
    prove(program);

    // The same program with one recorded operand mutated after execution
    // (a malicious prover) must fail verification on the cross-table check.
    let program = Program::new(instructions, 0, 0);
    let mut rt = Runtime::new(program);
    rt.run();
    rt.segment.add_events[2].b = 999;
    let config = StarkConfig::new(4);
    let mut challenger = DuplexChallenger::new();
    let (locals, global) = rt.prove(&config, &mut challenger);
    let mut vc = DuplexChallenger::new();
    let result = rt.verify(&config, &mut vc, &locals, &global);
    assert!(matches!(
        result,
        Err(ProgramVerificationError::NonZeroCumulativeSum)
    ));
}

#[test]
fn test_compiler_challenger() {
    let mut challenger = DuplexChallenger::new();
    challenger.observe(1);
    challenger.observe(2);
    challenger.observe(2);
    challenger.observe(2);
    let result = challenger.sample();

    let mut challenger2 = DuplexChallenger::new();
    challenger2.observe(1);
    challenger2.observe(2);
    challenger2.observe(2);
    challenger2.observe(2);
    let element = challenger2.sample();
    assert_eq!(result, element);

    // A copy reproduces the same challenge stream as its original.
    let mut c3 = DuplexChallenger::new();
    c3.observe(1);
    c3.observe(2);
    let mut c4 = c3.copy();
    assert_eq!(c3.sample(), c4.sample());

    // Observing a slice is observing its elements in order.
    let mut c5 = DuplexChallenger::new();
    c5.observe_slice(&vec![1, 2, 2, 2]);
    assert_eq!(c5.sample(), result);

    // Sampled bits recompose to the sampled element's low bits.
    let mut c6 = DuplexChallenger::new();
    c6.observe(5);
    let mut c7 = c6.copy();
    let bits = c6.sample_bits(16);
    let sampled = c7.sample();
    assert_eq!(bits.len(), 16);
    let mut recomposed: u64 = 0;
    for (i, b) in bits.iter().enumerate() {
        assert!(*b == 0 || *b == 1);
        recomposed += b << i;
    }
    assert_eq!(recomposed, sampled % 65536);

    // A grinding witness check reports whether the drawn bits are zero.
    let mut c8 = DuplexChallenger::new();
    let mut c9 = c8.copy();
    let ok = c8.check_witness(0, 3);
    assert!(ok);
    let _ = c9.check_witness(20, 3);
}

#[test]
fn test_alu_semantics() {
    assert_eq!(alu_op(Opcode::ADD, 5, 8), 13);
    assert_eq!(alu_op(Opcode::ADD, u32::MAX, 1), 0);
    assert_eq!(alu_op(Opcode::SUB, 5, 8), 5u32.wrapping_sub(8));
    assert_eq!(alu_op(Opcode::XOR, 0b1100, 0b1010), 0b0110);
    assert_eq!(alu_op(Opcode::OR, 0b1100, 0b1010), 0b1110);
    assert_eq!(alu_op(Opcode::AND, 0b1100, 0b1010), 0b1000);
    assert_eq!(alu_op(Opcode::SLL, 1, 34), 4);
    assert_eq!(alu_op(Opcode::SRL, 0x8000_0000, 4), 0x0800_0000);
    assert_eq!(alu_op(Opcode::SRA, 0x8000_0000, 4), 0xf800_0000);
    assert_eq!(alu_op(Opcode::SRA, 16, 2), 4);
    assert_eq!(alu_op(Opcode::SLT, u32::MAX, 1), 1);
    assert_eq!(alu_op(Opcode::SLT, 1, u32::MAX), 0);
    assert_eq!(alu_op(Opcode::SLTU, 1, u32::MAX), 1);
    assert_eq!(alu_op(Opcode::MUL, 0x10000, 0x10000), 0);
    assert_eq!(alu_op(Opcode::MULH, u32::MAX, u32::MAX), 0);
    assert_eq!(alu_op(Opcode::MULHU, u32::MAX, u32::MAX), 0xfffffffe);
    assert_eq!(
        alu_op(Opcode::MULHSU, u32::MAX, u32::MAX),
        (((-1i64 * (u32::MAX as i64)) >> 32) as i32) as u32
    );
    assert_eq!(alu_op(Opcode::DIV, 7, 2), 3);
    assert_eq!(alu_op(Opcode::DIV, (-7i32) as u32, 2), (-3i32) as u32);
    assert_eq!(alu_op(Opcode::DIV, 1, 0), u32::MAX);
    assert_eq!(alu_op(Opcode::DIV, i32::MIN as u32, (-1i32) as u32), i32::MIN as u32);
    assert_eq!(alu_op(Opcode::DIVU, 7, 2), 3);
    assert_eq!(alu_op(Opcode::DIVU, 7, 0), u32::MAX);
    assert_eq!(alu_op(Opcode::REM, (-7i32) as u32, 2), (-1i32) as u32);
    assert_eq!(alu_op(Opcode::REM, 7, 0), 7);
    assert_eq!(alu_op(Opcode::REM, i32::MIN as u32, (-1i32) as u32), 0);
    assert_eq!(alu_op(Opcode::REMU, 7, 2), 1);
    assert_eq!(alu_op(Opcode::REMU, 7, 0), 7);
}

#[test]
fn test_commitment_matches_direct_digest() {
    // The batched trace commitment is the digest of the serialized batch:
    // reproduce the serialization for an empty arithmetic chip and hash it
    // directly with the outside hash.
    let record = stark_engine::record::ExecutionRecord::new();
    let config = StarkConfig::new(4);
    let md = stark_engine::prover::Prover::commit_chip(&config, stark_engine::chips::ChipKind::Add, &record);
    // One shard, one zero row of width ten: count, then width, height, rows.
    let mut bytes: Vec<u8> = Vec::new();
    bytes.extend_from_slice(&1u64.to_le_bytes());
    bytes.extend_from_slice(&10u64.to_le_bytes());
    bytes.extend_from_slice(&1u64.to_le_bytes());
    for _ in 0..10 {
        bytes.extend_from_slice(&0u64.to_le_bytes());
    }
    let mut h = amcl::hash256::HASH256::new();
    h.process_array(&bytes);
    let expected = h.hash().to_vec();
    assert_eq!(md.main_commit, expected);
}

#[test]
fn test_hex_decode() {
    let input: Vec<u8> = b"0a1BfF".to_vec();
    let decoded = stark_engine::bytes::hex_decode(&input).unwrap();
    assert_eq!(decoded, vec![0x0a, 0x1b, 0xff]);
    let odd: Vec<u8> = b"abc".to_vec();
    assert!(stark_engine::bytes::hex_decode(&odd).is_none());
    let bad: Vec<u8> = b"zz".to_vec();
    assert!(stark_engine::bytes::hex_decode(&bad).is_none());
}

#[test]
fn test_report_data_bytes() {
    let short: Vec<u8> = vec![1, 2, 3];
    let padded = stark_engine::bytes::report_data_bytes(&short);
    assert_eq!(padded.len(), 64);
    assert_eq!(&padded[..3], &[1, 2, 3]);
    assert!(padded[3..].iter().all(|&b| b == 0));
    let long: Vec<u8> = (0..100).collect();
    let truncated = stark_engine::bytes::report_data_bytes(&long);
    assert_eq!(truncated.len(), 64);
    assert_eq!(truncated, (0..64).collect::<Vec<u8>>());
}
