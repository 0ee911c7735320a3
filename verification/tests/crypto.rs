use stark_engine::fp12::{
    fp12_modulus, AuxFp12MulCols, FieldOpCols, FieldOperation, Fp12MulChip, Fp12MulChipTrace,
    Fp12MulEvent, Fp6AddCols, Fp6MulCols, SyscallContext,
};
use stark_engine::secp256k1::{decompress_pubkey, ecrecover, verify_signature, Secp256k1Operations};
use k256::ecdsa::signature::hazmat::{PrehashSigner, PrehashVerifier};

fn biguints(values: &[u32]) -> Vec<num::BigUint> {
    values.iter().map(|&v| num::BigUint::from(v)).collect()
}

#[test]
fn test_field_op_populate() {
    let modulus = fp12_modulus();
    let mut cols = FieldOpCols::new();
    let mut events = Vec::new();
    let a = num::BigUint::from(1000u32);
    let b = num::BigUint::from(4242u32);
    cols.populate(&mut events, 0, 0, &a, &b, &modulus, FieldOperation::Mul);
    let expected = num::BigUint::from(1000u32) * num::BigUint::from(4242u32);
    assert_eq!(cols.result, expected);
    cols.populate(&mut events, 0, 0, &a, &b, &modulus, FieldOperation::Sub);
    let m = modulus.clone();
    let expected_sub = (num::BigUint::from(1000u32) + &m - num::BigUint::from(4242u32)) % &m;
    assert_eq!(cols.result, expected_sub);
    assert!(!events.is_empty());
}

#[test]
fn test_fp6_add_values() {
    let modulus = fp12_modulus();
    let mut state = Fp12MulChipTrace::new(0, 0, Vec::new(), modulus);
    let mut cols = Fp6AddCols::new();
    let a = biguints(&[1, 2, 3, 4, 5, 6]);
    let b = biguints(&[10, 20, 30, 40, 50, 60]);
    let r = state.fp6_add(&mut cols, &a, &b);
    let expected = [11u32, 22, 33, 44, 55, 66];
    for (i, v) in r.iter().enumerate() {
        assert_eq!(*v, num::BigUint::from(expected[i]));
    }
}

#[test]
fn test_fp6_mul_against_direct_arithmetic() {
    let modulus = fp12_modulus();
    let m = modulus.clone();
    let mut state = Fp12MulChipTrace::new(0, 0, Vec::new(), modulus);
    let mut cols = Fp6MulCols::new();
    // Multiply (1 + 0i, 0, 0) by itself in the sextic tower: the result's
    // first coefficient is 1 and the rest are 0.
    let a = biguints(&[1, 0, 0, 0, 0, 0]);
    let b = biguints(&[1, 0, 0, 0, 0, 0]);
    let r = state.fp6_mul(&mut cols, &a, &b);
    assert_eq!(r[0], num::BigUint::from(1u32));
    for v in r.iter().skip(1) {
        assert_eq!(v.clone() % &m, num::BigUint::from(0u32));
    }
}

#[test]
fn test_fp12_mul_identity() {
    let modulus = fp12_modulus();
    let mut state = Fp12MulChipTrace::new(0, 0, Vec::new(), modulus);
    let mut cols = AuxFp12MulCols::new();
    let mut one = vec![1u32];
    one.extend(std::iter::repeat(0u32).take(11));
    let a = biguints(&[9, 8, 7, 6, 5, 4, 3, 2, 1, 11, 12, 13]);
    let b = biguints(&one);
    let r = state.fp12_mul(&mut cols, &a, &b);
    let expected = [9u32, 8, 7, 6, 5, 4, 3, 2, 1, 11, 12, 13];
    for (i, v) in r.iter().enumerate() {
        assert_eq!(*v, num::BigUint::from(expected[i]));
    }
}

#[test]
fn test_pad_rows_zeroes_columns() {
    let modulus = fp12_modulus();
    let mut cols = Fp6MulCols::new();
    cols.c00.pad_rows(&modulus);
    cols.aux.pad_rows(&modulus);
    cols.pad_rows(&modulus);
    assert_eq!(cols.aux.b10_p_b11.result, num::BigUint::from(0u32));
    assert_eq!(cols.c21.sum5.result, num::BigUint::from(0u32));
    let mut aux = AuxFp12MulCols::new();
    aux.pad_rows(&modulus);
    assert_eq!(aux.x.a21_p_b21.result, num::BigUint::from(0u32));
}

fn one_event() -> Fp12MulEvent {
    let mut a = vec![2u32];
    a.extend(std::iter::repeat(0u32).take(143));
    let mut b = vec![3u32];
    b.extend(std::iter::repeat(0u32).take(143));
    Fp12MulEvent {
        lookup_id: 0,
        shard: 1,
        channel: 0,
        clk: 7,
        a_ptr: 0,
        a,
        b_ptr: 1024,
        b,
        a_memory_records: Vec::new(),
        b_memory_records: Vec::new(),
    }
}

#[test]
fn test_fp12_generate_trace() {
    let chip = Fp12MulChip::new();
    assert_eq!(chip.name(), "Fp12Mul");
    assert_eq!(chip.width(), 581);
    assert_eq!(chip.num_extra_cycles(), 0);
    let mut record = stark_engine::record::ExecutionRecord::new();
    record.fp12_mul_events.push(one_event());
    assert!(chip.included(&record));
    let mut output = stark_engine::record::ExecutionRecord::new();
    let trace = chip.generate_trace(&record, &mut output);
    assert_eq!(trace.width, 581);
    assert_eq!(trace.rows.len(), 1);
    let row = &trace.rows[0];
    assert_eq!(row[0], 1);
    assert_eq!(row[1], 1);
    assert_eq!(row[3], 7);
    assert_eq!(row[4], 0);
    // First product coordinate is 2 * 3 = 6, laid out in byte cells.
    assert_eq!(row[5], 6);
    assert!(row[6..53].iter().all(|&c| c == 0));
    assert!(!output.byte_lookups.is_empty());
}

#[test]
fn test_fp12_execute() {
    let chip = Fp12MulChip::new();
    let mut memory = vec![0u32; 512];
    memory[0] = 2;
    memory[144] = 5;
    let mut rt = SyscallContext {
        clk: 3,
        shard: 1,
        channel: 0,
        syscall_lookup_id: 9,
        memory,
        record: stark_engine::record::ExecutionRecord::new(),
    };
    let r = chip.execute(&mut rt, 0, 576);
    assert!(r.is_none());
    assert_eq!(rt.clk, 4);
    assert_eq!(rt.memory[0], 10);
    assert!(rt.memory[1..144].iter().all(|&w| w == 0));
    assert_eq!(rt.memory[144], 5);
    assert_eq!(rt.record.fp12_mul_events.len(), 1);
    let e = &rt.record.fp12_mul_events[0];
    assert_eq!(e.lookup_id, 9);
    assert_eq!(e.clk, 4);
    assert_eq!(e.a_ptr, 0);
    assert_eq!(e.b_ptr, 576);
    assert_eq!(e.a[0], 2);
    assert_eq!(e.b[0], 5);
    assert_eq!(e.a_memory_records.len(), 144);
    assert_eq!(e.a_memory_records[0].prev_value, 2);
    assert_eq!(e.a_memory_records[0].value, 10);
    assert_eq!(e.b_memory_records.len(), 144);
}

fn test_key() -> (k256::ecdsa::SigningKey, Vec<u8>) {
    let sk_bytes = [7u8; 32];
    let sk = k256::ecdsa::SigningKey::from_slice(&sk_bytes).unwrap();
    let vk = sk.verifying_key();
    let point =
        k256::elliptic_curve::sec1::ToSec1Point::to_uncompressed_point(vk.as_affine());
    (sk, point.as_slice().to_vec())
}

#[test]
fn test_verify_signature_against_direct_check() {
    let (sk, pk65) = test_key();
    let msg = [0x42u8; 32];
    let sig: k256::ecdsa::Signature = sk.sign_prehash(&msg).unwrap();
    let sig_bytes = sig.to_bytes().to_vec();
    assert!(verify_signature(&pk65, &msg.to_vec(), &sig_bytes));
    // Matches the outside library's own verdict.
    assert!(sk.verifying_key().verify_prehash(&msg, &sig).is_ok());
    // A flipped signature byte is rejected.
    let mut bad = sig_bytes.clone();
    bad[10] ^= 1;
    assert!(!verify_signature(&pk65, &msg.to_vec(), &bad));
    // A flipped message is rejected.
    let mut bad_msg = msg.to_vec();
    bad_msg[0] ^= 1;
    assert!(!verify_signature(&pk65, &bad_msg, &sig_bytes));
}

#[test]
fn test_decompress_pubkey() {
    let (_, pk65) = test_key();
    let sk = k256::ecdsa::SigningKey::from_slice(&[7u8; 32]).unwrap();
    let compressed = k256::elliptic_curve::sec1::ToSec1Point::to_compressed_point(
        sk.verifying_key().as_affine(),
    );
    let compressed33 = compressed.as_slice().to_vec();
    assert_eq!(compressed33.len(), 33);
    let decompressed = decompress_pubkey(&compressed33).unwrap();
    assert_eq!(decompressed, pk65);
    let invalid = vec![0xffu8; 33];
    assert!(decompress_pubkey(&invalid).is_err());
}

#[test]
fn test_ecrecover() {
    let (sk, pk65) = test_key();
    let msg = [0x42u8; 32];
    let sig: k256::ecdsa::Signature = sk.sign_prehash(&msg).unwrap();
    let mut sig65 = sig.to_bytes().to_vec();
    sig65.push(0);
    let compressed = k256::elliptic_curve::sec1::ToSec1Point::to_compressed_point(
        sk.verifying_key().as_affine(),
    );
    let hint = compressed.as_slice().to_vec();
    let recovered = ecrecover(&sig65, &msg.to_vec(), &hint).unwrap();
    assert_eq!(recovered, pk65);
    // A hint for the wrong key fails verification.
    let other = k256::ecdsa::SigningKey::from_slice(&[9u8; 32]).unwrap();
    let wrong = k256::elliptic_curve::sec1::ToSec1Point::to_compressed_point(
        other.verifying_key().as_affine(),
    );
    assert!(ecrecover(&sig65, &msg.to_vec(), &wrong.as_slice().to_vec()).is_err());
}

#[test]
fn test_secp256k1_generator() {
    let g = Secp256k1Operations::generator();
    assert_eq!(g.len(), 16);
    assert_eq!(g[0], 385357720);
    assert_eq!(g[15], 1211816567);
}
