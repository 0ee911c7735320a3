//! The Fiat-Shamir transcript: a duplex sponge over the base field.
//!
//! The challenger absorbs observed field elements into a fixed-width sponge
//! state, permutes the state when the rate is filled, and produces challenge
//! elements by reading the permuted state back. Every step is a function of
//! the observed values alone, so two challengers that observe the same values
//! in the same order produce the same challenges.

use vstd::prelude::*;
use crate::bytes::{push_u64s_le, spec_u64s_le, spec_u32_from_le, u32_from_le};
use crate::digest::{digest_of, sha256};
use crate::field::{fe_from_u64, fe_reduce, fe_valid, Ext4};

verus! {

/// The number of field elements in the sponge state.
pub const PERMUTATION_WIDTH: usize = 16;

/// The number of field elements absorbed between permutations.
pub const HASH_RATE: usize = 8;

/// The number of field elements observed for one commitment.
pub const DIGEST_SIZE: usize = 8;

/// The mathematical state of a challenger.
pub ghost struct ChallengerModel {
    pub sponge: Seq<u64>,
    pub input: Seq<u64>,
    pub output: Seq<u64>,
}

pub open spec fn challenger_wf(m: ChallengerModel) -> bool {
    &&& m.sponge.len() == 16
    &&& forall|i: int| 0 <= i < m.sponge.len() ==> fe_valid(#[trigger] m.sponge[i])
    &&& m.input.len() < 8
    &&& forall|i: int| 0 <= i < m.input.len() ==> fe_valid(#[trigger] m.input[i])
    &&& m.output.len() <= 16
    &&& forall|i: int| 0 <= i < m.output.len() ==> fe_valid(#[trigger] m.output[i])
}

/// The eight field elements read from a 32-byte digest, four bytes each.
pub open spec fn spec_digest_felts(d: Seq<u8>) -> Seq<u64> {
    Seq::new(
        8,
        |i: int|
            fe_reduce(
                spec_u32_from_le(d[4 * i], d[4 * i + 1], d[4 * i + 2], d[4 * i + 3]) as int,
            ) as u64,
    )
}

/// The sponge permutation: the state is serialized to bytes, digested twice
/// under distinct domain tags, and the two digests are read back as sixteen
/// field elements.
pub open spec fn spec_permute(s: Seq<u64>) -> Seq<u64> {
    let bytes = spec_u64s_le(s);
    spec_digest_felts(digest_of(bytes.push(0u8))) + spec_digest_felts(digest_of(bytes.push(1u8)))
}

/// Absorbs the pending input into the sponge, permutes, and refills the
/// output buffer from the new state.
pub open spec fn spec_duplex(m: ChallengerModel) -> ChallengerModel {
    let loaded = Seq::new(
        16,
        |i: int|
            if i < m.input.len() {
                m.input[i]
            } else {
                m.sponge[i]
            },
    );
    let permuted = spec_permute(loaded);
    ChallengerModel { sponge: permuted, input: Seq::empty(), output: permuted }
}

/// Observing a value empties the output buffer, queues the value, and
/// duplexes once the rate is reached.
pub open spec fn spec_observe(m: ChallengerModel, value: u64) -> ChallengerModel {
    let queued = ChallengerModel {
        sponge: m.sponge,
        input: m.input.push(value),
        output: Seq::empty(),
    };
    if queued.input.len() == 8 {
        spec_duplex(queued)
    } else {
        queued
    }
}

/// Observing a sequence of values, in order.
pub open spec fn spec_observe_seq(m: ChallengerModel, values: Seq<u64>) -> ChallengerModel
    decreases values.len(),
{
    if values.len() == 0 {
        m
    } else {
        spec_observe(spec_observe_seq(m, values.drop_last()), values.last())
    }
}

/// Observing a 32-byte commitment observes its eight field elements.
pub open spec fn spec_observe_commitment(m: ChallengerModel, commitment: Seq<u8>) -> ChallengerModel {
    spec_observe_seq(m, spec_digest_felts(commitment))
}

/// Sampling duplexes if input is pending or the output buffer is empty, then
/// pops the last buffered element.
pub open spec fn spec_sample(m: ChallengerModel) -> (u64, ChallengerModel) {
    let ready = if m.input.len() > 0 || m.output.len() == 0 {
        spec_duplex(m)
    } else {
        m
    };
    (
        ready.output.last(),
        ChallengerModel { sponge: ready.sponge, input: ready.input, output: ready.output.drop_last() },
    )
}

/// Four samples, read into the coordinates of an extension element.
pub open spec fn spec_sample_ext(m: ChallengerModel) -> (Ext4, ChallengerModel) {
    let (a, m1) = spec_sample(m);
    let (b, m2) = spec_sample(m1);
    let (c, m3) = spec_sample(m2);
    let (d, m4) = spec_sample(m3);
    (Ext4 { c0: a, c1: b, c2: c, c3: d }, m4)
}

/// The low bits of a word, least significant first.
pub open spec fn spec_bits(x: u64, n: nat) -> Seq<u64>
    decreases n,
{
    if n == 0 {
        Seq::empty()
    } else {
        seq![(x % 2) as u64] + spec_bits(x / 2, (n - 1) as nat)
    }
}

/// The state of a fresh challenger: an all-zero sponge and empty buffers.
pub open spec fn spec_new_challenger() -> ChallengerModel {
    ChallengerModel {
        sponge: Seq::new(16, |i: int| 0u64),
        input: Seq::empty(),
        output: Seq::empty(),
    }
}

/// A duplex-sponge Fiat-Shamir transcript.
pub struct DuplexChallenger {
    pub sponge_state: Vec<u64>,
    pub input_buffer: Vec<u64>,
    pub output_buffer: Vec<u64>,
}

impl View for DuplexChallenger {
    type V = ChallengerModel;

    open spec fn view(&self) -> ChallengerModel {
        ChallengerModel {
            sponge: self.sponge_state@,
            input: self.input_buffer@,
            output: self.output_buffer@,
        }
    }
}

fn copy_vec_u64(v: &Vec<u64>) -> (r: Vec<u64>)
    ensures
        r@ == v@,
{
    let mut out: Vec<u64> = Vec::new();
    let mut i: usize = 0;
    while i < v.len()
        invariant
            i <= v@.len(),
            out@ =~= v@.take(i as int),
        decreases v@.len() - i,
    {
        out.push(v[i]);
        i = i + 1;
    }
    proof {
        assert(v@.take(v@.len() as int) =~= v@);
    }
    out
}

/// The sponge permutation on a full-width state.
fn permute(state: &Vec<u64>) -> (r: Vec<u64>)
    requires
        state@.len() == 16,
    ensures
        r@ == spec_permute(state@),
        r@.len() == 16,
        forall|i: int| 0 <= i < r@.len() ==> fe_valid(#[trigger] r@[i]),
{
    let mut bytes: Vec<u8> = Vec::new();
    push_u64s_le(&mut bytes, state);
    proof {
        assert(bytes@ =~= spec_u64s_le(state@));
        crate::bytes::lemma_u64s_le_len(state@);
    }
    let mut first = copy_vec_u8(&bytes);
    first.push(0u8);
    let d0 = sha256(&first);
    let mut second = bytes;
    second.push(1u8);
    let d1 = sha256(&second);
    let mut out: Vec<u64> = Vec::new();
    digest_to_felts(&d0, &mut out);
    digest_to_felts(&d1, &mut out);
    proof {
        assert(out@ =~= spec_permute(state@));
    }
    out
}

fn copy_vec_u8(v: &Vec<u8>) -> (r: Vec<u8>)
    ensures
        r@ == v@,
{
    let mut out: Vec<u8> = Vec::new();
    let mut i: usize = 0;
    while i < v.len()
        invariant
            i <= v@.len(),
            out@ =~= v@.take(i as int),
        decreases v@.len() - i,
    {
        out.push(v[i]);
        i = i + 1;
    }
    proof {
        assert(v@.take(v@.len() as int) =~= v@);
    }
    out
}

/// Reads a 32-byte digest back as eight field elements and appends them.
fn digest_to_felts(d: &Vec<u8>, out: &mut Vec<u64>)
    requires
        d@.len() == 32,
    ensures
        final(out)@ == old(out)@ + spec_digest_felts(d@),
{
    let mut j: usize = 0;
    while j < 8
        invariant
            j <= 8,
            d@.len() == 32,
            out@ == old(out)@ + spec_digest_felts(d@).take(j as int),
        decreases 8 - j,
    {
        let w = u32_from_le(d[4 * j], d[4 * j + 1], d[4 * j + 2], d[4 * j + 3]);
        let f = fe_from_u64(w as u64);
        out.push(f);
        proof {
            assert(spec_digest_felts(d@).take(j + 1) =~= spec_digest_felts(d@).take(j as int).push(
                spec_digest_felts(d@)[j as int],
            ));
        }
        j = j + 1;
    }
    proof {
        assert(spec_digest_felts(d@).take(8) =~= spec_digest_felts(d@));
    }
}

impl DuplexChallenger {
    /// Creates a new duplex challenger with the default state.
    pub fn new() -> (r: Self)
        ensures
            r@ == spec_new_challenger(),
            challenger_wf(r@),
    {
        let mut sponge: Vec<u64> = Vec::new();
        let mut i: usize = 0;
        while i < 16
            invariant
                i <= 16,
                sponge@ =~= Seq::new(i as nat, |j: int| 0u64),
            decreases 16 - i,
        {
            sponge.push(0u64);
            proof {
                assert(Seq::new((i + 1) as nat, |j: int| 0u64) =~= Seq::new(i as nat, |j: int| 0u64)
                    .push(0u64));
            }
            i = i + 1;
        }
        let r = DuplexChallenger {
            sponge_state: sponge,
            input_buffer: Vec::new(),
            output_buffer: Vec::new(),
        };
        proof {
            assert(r@.sponge =~= spec_new_challenger().sponge);
        }
        r
    }

    /// Creates a new challenger with the same state as an existing one.
    pub fn copy(&self) -> (r: Self)
        ensures
            r@ == self@,
    {
        DuplexChallenger {
            sponge_state: copy_vec_u64(&self.sponge_state),
            input_buffer: copy_vec_u64(&self.input_buffer),
            output_buffer: copy_vec_u64(&self.output_buffer),
        }
    }

    /// Absorbs the pending input, permutes the sponge, and refills the
    /// output buffer.
    pub fn duplexing(&mut self)
        requires
            old(self)@.sponge.len() == 16,
            old(self)@.input.len() <= 8,
        ensures
            final(self)@ == spec_duplex(old(self)@),
            challenger_wf(final(self)@),
    {
        let n = self.input_buffer.len();
        let mut loaded: Vec<u64> = Vec::new();
        let mut i: usize = 0;
        while i < 16
            invariant
                i <= 16,
                n == self.input_buffer@.len(),
                n <= 8,
                self.sponge_state@.len() == 16,
                self == old(self),
                loaded@ =~= Seq::new(
                    i as nat,
                    |j: int|
                        if j < n {
                            self.input_buffer@[j]
                        } else {
                            self.sponge_state@[j]
                        },
                ),
            decreases 16 - i,
        {
            if i < n {
                loaded.push(self.input_buffer[i]);
            } else {
                loaded.push(self.sponge_state[i]);
            }
            proof {
                let f = |j: int|
                    if j < n {
                        self.input_buffer@[j]
                    } else {
                        self.sponge_state@[j]
                    };
                assert(Seq::new((i + 1) as nat, f) =~= Seq::new(i as nat, f).push(f(i as int)));
            }
            i = i + 1;
        }
        let permuted = permute(&loaded);
        let refill = copy_vec_u64(&permuted);
        self.sponge_state = permuted;
        self.input_buffer = Vec::new();
        self.output_buffer = refill;
        proof {
            assert(self@.sponge =~= spec_duplex(old(self)@).sponge);
            assert(self@.input =~= spec_duplex(old(self)@).input);
            assert(self@.output =~= spec_duplex(old(self)@).output);
        }
    }

    /// Observes one field element.
    pub fn observe(&mut self, value: u64)
        requires
            challenger_wf(old(self)@),
            fe_valid(value),
        ensures
            final(self)@ == spec_observe(old(self)@, value),
            challenger_wf(final(self)@),
    {
        self.output_buffer = Vec::new();
        self.input_buffer.push(value);
        if self.input_buffer.len() == 8 {
            self.duplexing();
        }
    }

    /// Observes a slice of field elements, in order.
    pub fn observe_slice(&mut self, values: &Vec<u64>)
        requires
            challenger_wf(old(self)@),
            forall|i: int| 0 <= i < values@.len() ==> fe_valid(#[trigger] values@[i]),
        ensures
            final(self)@ == spec_observe_seq(old(self)@, values@),
            challenger_wf(final(self)@),
    {
        let mut i: usize = 0;
        while i < values.len()
            invariant
                i <= values@.len(),
                forall|j: int| 0 <= j < values@.len() ==> fe_valid(#[trigger] values@[j]),
                self@ == spec_observe_seq(old(self)@, values@.take(i as int)),
                challenger_wf(self@),
            decreases values@.len() - i,
        {
            self.observe(values[i]);
            proof {
                assert(values@.take(i + 1).drop_last() =~= values@.take(i as int));
            }
            i = i + 1;
        }
        proof {
            assert(values@.take(values@.len() as int) =~= values@);
        }
    }

    /// Observes a 32-byte commitment as eight field elements.
    pub fn observe_commitment(&mut self, commitment: &Vec<u8>)
        requires
            challenger_wf(old(self)@),
            commitment@.len() == 32,
        ensures
            final(self)@ == spec_observe_commitment(old(self)@, commitment@),
            challenger_wf(final(self)@),
    {
        let mut felts: Vec<u64> = Vec::new();
        digest_to_felts(commitment, &mut felts);
        proof {
            assert(felts@ =~= spec_digest_felts(commitment@));
        }
        self.observe_slice(&felts);
    }

    /// Draws one challenge element.
    pub fn sample(&mut self) -> (r: u64)
        requires
            challenger_wf(old(self)@),
        ensures
            r == spec_sample(old(self)@).0,
            final(self)@ == spec_sample(old(self)@).1,
            challenger_wf(final(self)@),
            fe_valid(r),
    {
        if self.input_buffer.len() > 0 || self.output_buffer.len() == 0 {
            self.duplexing();
        }
        let r = self.output_buffer.pop().unwrap();
        r
    }

    /// Draws one challenge in the extension field.
    pub fn sample_ext(&mut self) -> (r: Ext4)
        requires
            challenger_wf(old(self)@),
        ensures
            r == spec_sample_ext(old(self)@).0,
            final(self)@ == spec_sample_ext(old(self)@).1,
            challenger_wf(final(self)@),
            crate::field::ext_valid(r),
    {
        let a = self.sample();
        let b = self.sample();
        let c = self.sample();
        let d = self.sample();
        Ext4 { c0: a, c1: b, c2: c, c3: d }
    }

    /// Draws one challenge and returns its low bits, least significant first.
    pub fn sample_bits(&mut self, nb_bits: usize) -> (r: Vec<u64>)
        requires
            challenger_wf(old(self)@),
        ensures
            r@ == spec_bits(spec_sample(old(self)@).0, nb_bits as nat),
            final(self)@ == spec_sample(old(self)@).1,
            challenger_wf(final(self)@),
    {
        let sampled = self.sample();
        let mut bits: Vec<u64> = Vec::new();
        let mut rest = sampled;
        let mut i: usize = 0;
        while i < nb_bits
            invariant
                i <= nb_bits,
                bits@ + spec_bits(rest, (nb_bits - i) as nat) =~= spec_bits(
                    sampled,
                    nb_bits as nat,
                ),
                bits@.len() == i,
            decreases nb_bits - i,
        {
            proof {
                assert(spec_bits(rest, (nb_bits - i) as nat) =~= seq![(rest % 2) as u64]
                    + spec_bits(rest / 2, (nb_bits - i - 1) as nat));
            }
            bits.push(rest % 2);
            rest = rest / 2;
            i = i + 1;
            proof {
                assert(bits@ + spec_bits(rest, (nb_bits - i) as nat) =~= spec_bits(
                    sampled,
                    nb_bits as nat,
                ));
            }
        }
        proof {
            assert(spec_bits(rest, 0) =~= Seq::<u64>::empty());
            assert(bits@ =~= spec_bits(sampled, nb_bits as nat));
        }
        bits
    }

    /// Observes a grinding witness and reports whether the challenge bits it
    /// drives are all zero.
    pub fn check_witness(&mut self, nb_bits: usize, witness: u64) -> (r: bool)
        requires
            challenger_wf(old(self)@),
            fe_valid(witness),
        ensures
            ({
                let observed = spec_observe(old(self)@, witness);
                let bits = spec_bits(spec_sample(observed).0, nb_bits as nat);
                &&& r == (forall|i: int| 0 <= i < bits.len() ==> #[trigger] bits[i] == 0)
                &&& final(self)@ == spec_sample(observed).1
            }),
            challenger_wf(final(self)@),
    {
        self.observe(witness);
        let bits = self.sample_bits(nb_bits);
        let mut ok = true;
        let mut i: usize = 0;
        while i < bits.len()
            invariant
                i <= bits@.len(),
                ok == (forall|j: int| 0 <= j < i ==> #[trigger] bits@[j] == 0),
            decreases bits@.len() - i,
        {
            if bits[i] != 0 {
                ok = false;
            }
            i = i + 1;
        }
        ok
    }
}

} // verus!
