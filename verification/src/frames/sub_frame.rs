//! Subframes: one channel of one block, as a constant, as plain samples, or
//! as the residuals of a fixed predictor in Rice codes.

use crate::bits::{
    bit_of, lemma_bit_of_u8, lemma_low_bits_mod, lemma_low_bits_split, lemma_low_bits_zero,
    low_bits, ones, signed_value, twos32, zeros,
};
use crate::{BitSink, BitSinkAdapter, ByteSink};
use vstd::arithmetic::power2::{lemma2_to64, lemma_pow2_pos, pow2};
use vstd::bits::lemma_u32_shr_is_div;
use vstd::prelude::*;

verus! {

/// The bits of one sample: the `width` bits of `sample` that lie above its
/// `wasted` lowest ones, in two's complement, most significant first.
pub open spec fn sample_bits(sample: int, wasted: nat, width: nat) -> Seq<bool> {
    low_bits(twos32(sample) / pow2(wasted), width)
}

/// The unary code of `n`: `n` zero bits and a one bit.
pub open spec fn unary_bits(n: nat) -> Seq<bool> {
    zeros(n).push(true)
}

/// The zig-zag fold: `0, -1, 1, -2, 2, ...` go to `0, 1, 2, 3, 4, ...`.
pub open spec fn fold(n: int) -> nat {
    if n >= 0 {
        (2 * n) as nat
    } else {
        (-2 * n - 1) as nat
    }
}

/// The inverse of the zig-zag fold.
pub open spec fn unfold(u: nat) -> int {
    if u % 2 == 0 {
        u as int / 2
    } else {
        -((u as int + 1) / 2)
    }
}

/// The Rice code of `u` with parameter `k`: the quotient by two to the `k`
/// in unary, then the `k` low bits.
pub open spec fn rice_bits(u: nat, k: nat) -> Seq<bool> {
    unary_bits(u / pow2(k)) + low_bits(u, k)
}

/// Folding and unfolding are inverse to each other: the fold is a bijection
/// between the integers and the naturals.
pub proof fn lemma_fold_bijective(n: int, u: nat)
    ensures
        unfold(fold(n)) == n,
        fold(unfold(u)) == u,
        n >= 0 ==> fold(n) == 2 * n,
        n < 0 ==> fold(n) == -2 * n - 1,
{
}

/// How the parameter of a Rice partition is written.
#[derive(Clone, Copy)]
pub enum ResidualCodingMethod {
    /// The parameter takes four bits.
    Rice4Bits,
    /// The parameter takes five bits.
    Rice5Bits,
}

impl ResidualCodingMethod {
    /// The two-bit tag of the method.
    pub open spec fn code(self) -> u8 {
        match self {
            ResidualCodingMethod::Rice4Bits => 0,
            ResidualCodingMethod::Rice5Bits => 1,
        }
    }

    /// The number of bits that the parameter takes.
    pub open spec fn width(self) -> u8 {
        match self {
            ResidualCodingMethod::Rice4Bits => 4,
            ResidualCodingMethod::Rice5Bits => 5,
        }
    }

    /// The value of the parameter field that announces raw residuals: all
    /// ones.
    pub open spec fn escape_code(self) -> u8 {
        match self {
            ResidualCodingMethod::Rice4Bits => 15,
            ResidualCodingMethod::Rice5Bits => 31,
        }
    }

    /// The two-bit tag of the method.
    pub fn as_u8(&self) -> (tag: u8)
        ensures
            tag == self.code(),
    {
        match self {
            ResidualCodingMethod::Rice4Bits => 0,
            ResidualCodingMethod::Rice5Bits => 1,
        }
    }
}

/// What a Rice partition holds.
pub enum RiceParams {
    /// Rice codes with this parameter.
    Param(u8),
    /// Raw residuals of this many bits each.
    Escape(u8),
}

impl RiceParams {
    /// The parameter fits its field and is not the escape code; the width of
    /// raw residuals fits its five bits.
    pub open spec fn valid(self, method: ResidualCodingMethod) -> bool {
        match self {
            RiceParams::Param(k) => k < method.escape_code(),
            RiceParams::Escape(width) => width < 32,
        }
    }

    /// The parameter field; for raw residuals, the escape code and their
    /// width in five bits.
    pub open spec fn bits(self, method: ResidualCodingMethod) -> Seq<bool> {
        match self {
            RiceParams::Param(k) => low_bits(k as nat, method.width() as nat),
            RiceParams::Escape(width) => ones(method.width() as nat) + low_bits(width as nat, 5),
        }
    }

    /// The code of one residual.
    pub open spec fn residual_bits(self, residual: int) -> Seq<bool> {
        match self {
            RiceParams::Param(k) => rice_bits(fold(residual), k as nat),
            RiceParams::Escape(width) => sample_bits(residual, 0, width as nat),
        }
    }

    /// Whether the parameter can be written with `method`.
    pub fn is_valid(&self, method: ResidualCodingMethod) -> (ok: bool)
        ensures
            ok == self.valid(method),
    {
        match self {
            RiceParams::Param(k) => match method {
                ResidualCodingMethod::Rice4Bits => *k < 15,
                ResidualCodingMethod::Rice5Bits => *k < 31,
            },
            RiceParams::Escape(width) => *width < 32,
        }
    }

    /// Writes the parameter field.
    pub fn write<'a, BS: ByteSink>(
        &self,
        bit_sink: &mut BitSinkAdapter<'a, BS>,
        method: ResidualCodingMethod,
    )
        requires
            old(bit_sink).wf(),
            self.valid(method),
            self.bits(method).len() <= old(bit_sink).room(),
        ensures
            final(bit_sink).wf(),
            final(bit_sink).bits() == old(bit_sink).bits() + self.bits(method),
            final(bit_sink).room() == old(bit_sink).room() - self.bits(method).len(),
            *final(final(bit_sink).inner()) == *final(old(bit_sink).inner()),
    {
        let bits: u8 = match method {
            ResidualCodingMethod::Rice4Bits => 4,
            ResidualCodingMethod::Rice5Bits => 5,
        };
        match self {
            RiceParams::Param(par) => bit_sink.write(*par, bits),
            RiceParams::Escape(width) => {
                let ghost before = bit_sink.bits();
                bit_sink.write(0xFF, bits);
                bit_sink.write(*width, 5);
                proof {
                    assert(low_bits(0xFF, bits as nat) =~= ones(bits as nat)) by {
                        assert forall|i: int| 0 <= i < bits implies low_bits(
                            0xFF,
                            bits as nat,
                        )[i] by {
                            let j = (bits - 1 - i) as u8;
                            lemma_bit_of_u8(0xFF, j);
                            assert((0xFFu8 >> j) & 1 == 1) by (bit_vector)
                                requires
                                    j < 8,
                            ;
                        }
                    }
                    assert(bit_sink.bits() =~= before + self.bits(method));
                }
            },
        }
    }
}

/// The kind of a subframe. Its six-bit tag is `000000` for a constant,
/// `000001` for plain samples, `001rrr` for the fixed predictor of order `r`,
/// and `1ppppp` for a linear predictor of order `p + 1`.
#[derive(Clone, Copy)]
pub enum SubFrameType {
    Constant,
    Verbatim,
    FixedPredictorOrder0,
    FixedPredictorOrder1,
    FixedPredictorOrder2,
    FixedPredictorOrder3,
    FixedPredictorOrder4,
    LinearPredictorOrder1,
    LinearPredictorOrder2,
    LinearPredictorOrder3,
    LinearPredictorOrder4,
    LinearPredictorOrder5,
    LinearPredictorOrder6,
    LinearPredictorOrder7,
    LinearPredictorOrder8,
    LinearPredictorOrder9,
    LinearPredictorOrder10,
    LinearPredictorOrder11,
    LinearPredictorOrder12,
    LinearPredictorOrder13,
    LinearPredictorOrder14,
    LinearPredictorOrder15,
    LinearPredictorOrder16,
    LinearPredictorOrder17,
    LinearPredictorOrder18,
    LinearPredictorOrder19,
    LinearPredictorOrder20,
    LinearPredictorOrder21,
    LinearPredictorOrder22,
    LinearPredictorOrder23,
    LinearPredictorOrder24,
    LinearPredictorOrder25,
    LinearPredictorOrder26,
    LinearPredictorOrder27,
    LinearPredictorOrder28,
    LinearPredictorOrder29,
    LinearPredictorOrder30,
    LinearPredictorOrder31,
    LinearPredictorOrder32,
}

impl SubFrameType {
    /// The six-bit tag.
    pub open spec fn code(self) -> u8 {
        match self {
            SubFrameType::Constant => 0,
            SubFrameType::Verbatim => 1,
            SubFrameType::FixedPredictorOrder0 => 8,
            SubFrameType::FixedPredictorOrder1 => 9,
            SubFrameType::FixedPredictorOrder2 => 10,
            SubFrameType::FixedPredictorOrder3 => 11,
            SubFrameType::FixedPredictorOrder4 => 12,
            SubFrameType::LinearPredictorOrder1 => 32,
            SubFrameType::LinearPredictorOrder2 => 33,
            SubFrameType::LinearPredictorOrder3 => 34,
            SubFrameType::LinearPredictorOrder4 => 35,
            SubFrameType::LinearPredictorOrder5 => 36,
            SubFrameType::LinearPredictorOrder6 => 37,
            SubFrameType::LinearPredictorOrder7 => 38,
            SubFrameType::LinearPredictorOrder8 => 39,
            SubFrameType::LinearPredictorOrder9 => 40,
            SubFrameType::LinearPredictorOrder10 => 41,
            SubFrameType::LinearPredictorOrder11 => 42,
            SubFrameType::LinearPredictorOrder12 => 43,
            SubFrameType::LinearPredictorOrder13 => 44,
            SubFrameType::LinearPredictorOrder14 => 45,
            SubFrameType::LinearPredictorOrder15 => 46,
            SubFrameType::LinearPredictorOrder16 => 47,
            SubFrameType::LinearPredictorOrder17 => 48,
            SubFrameType::LinearPredictorOrder18 => 49,
            SubFrameType::LinearPredictorOrder19 => 50,
            SubFrameType::LinearPredictorOrder20 => 51,
            SubFrameType::LinearPredictorOrder21 => 52,
            SubFrameType::LinearPredictorOrder22 => 53,
            SubFrameType::LinearPredictorOrder23 => 54,
            SubFrameType::LinearPredictorOrder24 => 55,
            SubFrameType::LinearPredictorOrder25 => 56,
            SubFrameType::LinearPredictorOrder26 => 57,
            SubFrameType::LinearPredictorOrder27 => 58,
            SubFrameType::LinearPredictorOrder28 => 59,
            SubFrameType::LinearPredictorOrder29 => 60,
            SubFrameType::LinearPredictorOrder30 => 61,
            SubFrameType::LinearPredictorOrder31 => 62,
            SubFrameType::LinearPredictorOrder32 => 63,
        }
    }

    /// The order, if this is a fixed predictor.
    pub open spec fn fixed_order(self) -> Option<nat> {
        match self {
            SubFrameType::FixedPredictorOrder0 => Some(0),
            SubFrameType::FixedPredictorOrder1 => Some(1),
            SubFrameType::FixedPredictorOrder2 => Some(2),
            SubFrameType::FixedPredictorOrder3 => Some(3),
            SubFrameType::FixedPredictorOrder4 => Some(4),
            _ => None,
        }
    }

    /// Constants, plain samples and the fixed predictors can be written; the
    /// linear predictors are reserved.
    pub open spec fn implemented(self) -> bool {
        self.code() < 32
    }

    /// The six-bit tag.
    pub fn as_u8(&self) -> (tag: u8)
        ensures
            tag == self.code(),
            tag < 64,
    {
        match self {
            SubFrameType::Constant => 0,
            SubFrameType::Verbatim => 1,
            SubFrameType::FixedPredictorOrder0 => 8,
            SubFrameType::FixedPredictorOrder1 => 9,
            SubFrameType::FixedPredictorOrder2 => 10,
            SubFrameType::FixedPredictorOrder3 => 11,
            SubFrameType::FixedPredictorOrder4 => 12,
            SubFrameType::LinearPredictorOrder1 => 32,
            SubFrameType::LinearPredictorOrder2 => 33,
            SubFrameType::LinearPredictorOrder3 => 34,
            SubFrameType::LinearPredictorOrder4 => 35,
            SubFrameType::LinearPredictorOrder5 => 36,
            SubFrameType::LinearPredictorOrder6 => 37,
            SubFrameType::LinearPredictorOrder7 => 38,
            SubFrameType::LinearPredictorOrder8 => 39,
            SubFrameType::LinearPredictorOrder9 => 40,
            SubFrameType::LinearPredictorOrder10 => 41,
            SubFrameType::LinearPredictorOrder11 => 42,
            SubFrameType::LinearPredictorOrder12 => 43,
            SubFrameType::LinearPredictorOrder13 => 44,
            SubFrameType::LinearPredictorOrder14 => 45,
            SubFrameType::LinearPredictorOrder15 => 46,
            SubFrameType::LinearPredictorOrder16 => 47,
            SubFrameType::LinearPredictorOrder17 => 48,
            SubFrameType::LinearPredictorOrder18 => 49,
            SubFrameType::LinearPredictorOrder19 => 50,
            SubFrameType::LinearPredictorOrder20 => 51,
            SubFrameType::LinearPredictorOrder21 => 52,
            SubFrameType::LinearPredictorOrder22 => 53,
            SubFrameType::LinearPredictorOrder23 => 54,
            SubFrameType::LinearPredictorOrder24 => 55,
            SubFrameType::LinearPredictorOrder25 => 56,
            SubFrameType::LinearPredictorOrder26 => 57,
            SubFrameType::LinearPredictorOrder27 => 58,
            SubFrameType::LinearPredictorOrder28 => 59,
            SubFrameType::LinearPredictorOrder29 => 60,
            SubFrameType::LinearPredictorOrder30 => 61,
            SubFrameType::LinearPredictorOrder31 => 62,
            SubFrameType::LinearPredictorOrder32 => 63,
        }
    }
}

proof fn lemma_word_of_sample(sample: i32)
    by (bit_vector)
    ensures
        sample >= 0 ==> (sample as u32) == sample,
        sample < 0 ==> (sample as u32) == sample + 0x1_0000_0000,
{
}

proof fn lemma_sample_of_word(word: u32)
    by (bit_vector)
    ensures
        (word as i32) >= 0 ==> (word as i32) == word,
        (word as i32) < 0 ==> (word as i32) + 0x1_0000_0000 == word,
{
}

proof fn lemma_low_byte(word: u32)
    by (bit_vector)
    ensures
        (word as u8) == word % 256,
{
}

/// The zig-zag fold of a residual.
pub fn signed_fold(n: i32) -> (u: u32)
    ensures
        u == fold(n as int),
{
    if n < 0 {
        ((-(n + 1)) as u32) * 2 + 1
    } else {
        (n as u32) * 2
    }
}

/// Writes `code` in unary: that many zero bits, then a one bit.
pub fn unary_code<'a, BS: ByteSink>(code: u32, bit_sink: &mut BitSinkAdapter<'a, BS>)
    requires
        old(bit_sink).wf(),
        code + 1 <= old(bit_sink).room(),
    ensures
        final(bit_sink).wf(),
        final(bit_sink).bits() == old(bit_sink).bits() + unary_bits(code as nat),
        final(bit_sink).room() == old(bit_sink).room() - (code + 1),
        *final(final(bit_sink).inner()) == *final(old(bit_sink).inner()),
{
    let ghost before = bit_sink.bits();
    let ghost room = bit_sink.room();
    let mut remaining = code;
    while remaining > 0
        invariant
            bit_sink.wf(),
            remaining <= code,
            code + 1 <= room,
            bit_sink.bits() == before + zeros((code - remaining) as nat),
            bit_sink.room() == room - (code - remaining),
            *final(bit_sink.inner()) == *final(old(bit_sink).inner()),
        decreases remaining,
    {
        let push: u32 = if remaining < 8 {
            remaining
        } else {
            8
        };
        let ghost done = (code - remaining) as nat;
        remaining -= push;
        bit_sink.write(0, push as u8);
        proof {
            lemma_low_bits_zero(push as nat);
            assert(zeros(done) + zeros(push as nat) =~= zeros(done + push as nat));
            assert(bit_sink.bits() =~= before + zeros((code - remaining) as nat));
        }
    }
    bit_sink.write(1, 1);
    proof {
        lemma2_to64();
        assert(pow2(0) == 1);
        assert(bit_of(1, 0));
        assert(low_bits(1, 1)[0] == bit_of(1, 0));
        assert(low_bits(1, 1) =~= seq![true]);
        assert(bit_sink.bits() =~= before + unary_bits(code as nat));
    }
}

/// Writes the `bit_depth - wasted_bits` bits of `sample` that lie above its
/// `wasted_bits` lowest ones.
pub fn write_sample<'a, BS: ByteSink>(
    sample: i32,
    bit_sink: &mut BitSinkAdapter<'a, BS>,
    bit_depth: u8,
    wasted_bits: u8,
)
    requires
        old(bit_sink).wf(),
        wasted_bits <= bit_depth <= 32,
        wasted_bits < 32,
        bit_depth - wasted_bits <= old(bit_sink).room(),
    ensures
        final(bit_sink).wf(),
        final(bit_sink).bits() == old(bit_sink).bits() + sample_bits(
            sample as int,
            wasted_bits as nat,
            (bit_depth - wasted_bits) as nat,
        ),
        final(bit_sink).room() == old(bit_sink).room() - (bit_depth - wasted_bits),
        *final(final(bit_sink).inner()) == *final(old(bit_sink).inner()),
{
    let ghost before = bit_sink.bits();
    let ghost room = bit_sink.room();
    let used_bits = bit_depth - wasted_bits;
    let full_bytes = used_bits / 8;
    let partial = used_bits % 8;
    let image = #[verifier::truncate]
    (sample as u32);
    let word = image >> (wasted_bits as u32);
    proof {
        lemma_word_of_sample(sample);
        lemma_u32_shr_is_div(image, wasted_bits as u32);
        assert(word as nat == twos32(sample as int) / pow2(wasted_bits as nat));
    }
    if partial != 0 {
        let shift: u32 = 8 * (full_bytes as u32);
        let top = word >> shift;
        let byte = #[verifier::truncate]
        (top as u8);
        bit_sink.write(byte, partial);
        proof {
            lemma_low_byte(top);
            lemma_u32_shr_is_div(word, shift);
            lemma2_to64();
            lemma_low_bits_mod(top as nat, 8, partial as nat);
        }
    } else {
        proof {
            assert(bit_sink.bits() + low_bits(word as nat / pow2(8 * full_bytes as nat), 0)
                =~= bit_sink.bits());
        }
    }
    let mut left = full_bytes;
    while left > 0
        invariant
            bit_sink.wf(),
            left <= full_bytes,
            used_bits == 8 * full_bytes + partial,
            used_bits <= 32,
            used_bits <= room,
            bit_sink.bits() == before + low_bits(
                word as nat / pow2(8 * left as nat),
                (used_bits - 8 * left) as nat,
            ),
            bit_sink.room() == room - (used_bits - 8 * left),
            *final(bit_sink.inner()) == *final(old(bit_sink).inner()),
        decreases left,
    {
        left -= 1;
        let shift: u32 = 8 * (left as u32);
        let part = word >> shift;
        let byte = #[verifier::truncate]
        (part as u8);
        bit_sink.write(byte, 8);
        proof {
            lemma_low_byte(part);
            lemma_u32_shr_is_div(word, shift);
            lemma2_to64();
            lemma_low_bits_mod(part as nat, 8, 8);
            lemma_low_bits_split(part as nat, (used_bits - 8 * left - 8) as nat, 8);
            lemma_pow2_pos(8 * left as nat);
            vstd::arithmetic::power2::lemma_pow2_adds(8 * left as nat, 8);
            vstd::arithmetic::div_mod::lemma_div_denominator(
                word as int,
                pow2(8 * left as nat) as int,
                256,
            );
            assert(part as nat / pow2(8) == word as nat / pow2(8 * (left + 1) as nat));
            assert(bit_sink.bits() =~= before + low_bits(
                part as nat,
                (used_bits - 8 * left) as nat,
            ));
        }
    }
    proof {
        lemma2_to64();
        assert(word as nat / pow2(0) == word as nat);
    }
}

/// Writes the Rice code of `sample` with parameter `lsp_size`.
pub fn rice_code<'a, BS: ByteSink>(
    lsp_size: u8,
    sample: u32,
    bit_sink: &mut BitSinkAdapter<'a, BS>,
)
    requires
        old(bit_sink).wf(),
        lsp_size < 32,
        rice_bits(sample as nat, lsp_size as nat).len() <= old(bit_sink).room(),
    ensures
        final(bit_sink).wf(),
        final(bit_sink).bits() == old(bit_sink).bits() + rice_bits(sample as nat, lsp_size as nat),
        final(bit_sink).room() == old(bit_sink).room() - rice_bits(
            sample as nat,
            lsp_size as nat,
        ).len(),
        *final(final(bit_sink).inner()) == *final(old(bit_sink).inner()),
{
    let ghost before = bit_sink.bits();
    let msp = sample >> (lsp_size as u32);
    proof {
        lemma_u32_shr_is_div(sample, lsp_size as u32);
    }
    unary_code(msp, bit_sink);
    let lsp = #[verifier::truncate]
    (sample as i32);
    write_sample(lsp, bit_sink, lsp_size, 0);
    proof {
        lemma_sample_of_word(sample);
        lemma2_to64();
        assert(twos32(lsp as int) / pow2(0) == sample as nat);
        assert(bit_sink.bits() =~= before + rice_bits(sample as nat, lsp_size as nat));
    }
}

/// Writes one residual: its Rice code, or its raw bits in an escaped
/// partition.
pub fn residual_codeing<'a, BS: ByteSink>(
    params: &RiceParams,
    bit_sink: &mut BitSinkAdapter<'a, BS>,
    sample: i32,
)
    requires
        old(bit_sink).wf(),
        params matches RiceParams::Param(k) ==> k < 32,
        params matches RiceParams::Escape(width) ==> width <= 32,
        params.residual_bits(sample as int).len() <= old(bit_sink).room(),
    ensures
        final(bit_sink).wf(),
        final(bit_sink).bits() == old(bit_sink).bits() + params.residual_bits(sample as int),
        final(bit_sink).room() == old(bit_sink).room() - params.residual_bits(sample as int).len(),
        *final(final(bit_sink).inner()) == *final(old(bit_sink).inner()),
{
    match params {
        RiceParams::Param(rice) => rice_code(*rice, signed_fold(sample), bit_sink),
        RiceParams::Escape(num_bits) => write_sample(sample, bit_sink, *num_bits, 0),
    }
}

/// What the fixed predictor of order `order` expects at index `i`, from the
/// `order` samples before it.
pub open spec fn predicted(samples: Seq<i32>, order: nat, i: int) -> int {
    if order == 1 {
        samples[i - 1] as int
    } else if order == 2 {
        2 * samples[i - 1] - samples[i - 2]
    } else if order == 3 {
        3 * samples[i - 1] - 3 * samples[i - 2] + samples[i - 3]
    } else if order == 4 {
        4 * samples[i - 1] - 6 * samples[i - 2] + 4 * samples[i - 3] - samples[i - 4]
    } else {
        0
    }
}

/// The residual at index `i`: the sample less what the predictor expects.
pub open spec fn residual(samples: Seq<i32>, order: nat, i: int) -> int {
    samples[i] - predicted(samples, order, i)
}

/// Every residual of the block fits in 32 bits.
pub open spec fn residuals_fit(samples: Seq<i32>, order: nat) -> bool {
    forall|i: int|
        order <= i < samples.len() ==> i32::MIN <= #[trigger] residual(samples, order, i)
            <= i32::MAX
}

/// The first `count` samples, one after the other.
pub open spec fn verbatim_bits(samples: Seq<i32>, wasted: nat, width: nat, count: nat) -> Seq<
    bool,
>
    decreases count,
{
    if count == 0 {
        Seq::empty()
    } else {
        verbatim_bits(samples, wasted, width, (count - 1) as nat) + sample_bits(
            samples[count - 1] as int,
            wasted,
            width,
        )
    }
}

/// The codes of the first `count` residuals, one after the other.
pub open spec fn residuals_bits(
    samples: Seq<i32>,
    order: nat,
    params: RiceParams,
    count: nat,
) -> Seq<bool>
    decreases count,
{
    if count == 0 {
        Seq::empty()
    } else {
        residuals_bits(samples, order, params, (count - 1) as nat) + params.residual_bits(
            residual(samples, order, order + count - 1),
        )
    }
}

/// The body of a subframe with a fixed predictor: the warm-up samples, the
/// method, the partition order (always zero: one partition), the parameter,
/// and the residuals.
pub open spec fn fixed_bits(
    samples: Seq<i32>,
    wasted: nat,
    width: nat,
    order: nat,
    method: ResidualCodingMethod,
    params: RiceParams,
) -> Seq<bool> {
    verbatim_bits(samples, wasted, width, order) + low_bits(method.code() as nat, 2) + zeros(4)
        + params.bits(method) + residuals_bits(
        samples,
        order,
        params,
        (samples.len() - order) as nat,
    )
}

/// Samples of no more than `depth` bits have residuals of no more than
/// `depth + order` bits: they fit in 32 bits if `depth + order` does.
pub proof fn lemma_residuals_fit(samples: Seq<i32>, order: nat, depth: nat)
    requires
        order <= 4,
        1 <= depth,
        depth + order <= 32,
        forall|i: int|
            0 <= i < samples.len() ==> -pow2((depth - 1) as nat) <= #[trigger] samples[i] < pow2(
                (depth - 1) as nat,
            ),
    ensures
        residuals_fit(samples, order),
{
    let half = pow2((depth - 1) as nat) as int;
    lemma2_to64();
    vstd::arithmetic::power2::lemma_pow2_adds((depth - 1) as nat, order);
    if depth + order < 32 {
        vstd::arithmetic::power2::lemma_pow2_strictly_increases((depth + order - 1) as nat, 31);
    }
    assert(half * pow2(order) <= 0x8000_0000);
    assert forall|i: int| order <= i < samples.len() implies i32::MIN <= #[trigger] residual(
        samples,
        order,
        i,
    ) <= i32::MAX by {
        assert(-half <= samples[i] < half);
        if order >= 1 {
            assert(-half <= samples[i - 1] < half);
        }
        if order >= 2 {
            assert(-half <= samples[i - 2] < half);
        }
        if order >= 3 {
            assert(-half <= samples[i - 3] < half);
        }
        if order >= 4 {
            assert(-half <= samples[i - 4] < half);
        }
    }
}

/// More samples take more bits.
pub proof fn lemma_verbatim_bits_len(
    samples: Seq<i32>,
    wasted: nat,
    width: nat,
    fewer: nat,
    count: nat,
)
    requires
        fewer <= count,
    ensures
        verbatim_bits(samples, wasted, width, fewer).len() <= verbatim_bits(
            samples,
            wasted,
            width,
            count,
        ).len(),
    decreases count,
{
    if fewer < count {
        lemma_verbatim_bits_len(samples, wasted, width, fewer, (count - 1) as nat);
    }
}

/// `count` samples of `width` bits take `count * width` bits.
pub proof fn lemma_verbatim_bits_total(samples: Seq<i32>, wasted: nat, width: nat, count: nat)
    ensures
        verbatim_bits(samples, wasted, width, count).len() == count * width,
    decreases count,
{
    if count > 0 {
        lemma_verbatim_bits_total(samples, wasted, width, (count - 1) as nat);
        assert((count - 1) * width + width == count * width) by (nonlinear_arith);
    } else {
        assert(0 * width == 0);
    }
}

/// More residuals take more bits.
pub proof fn lemma_residuals_bits_len(
    samples: Seq<i32>,
    order: nat,
    params: RiceParams,
    fewer: nat,
    count: nat,
)
    requires
        fewer <= count,
    ensures
        residuals_bits(samples, order, params, fewer).len() <= residuals_bits(
            samples,
            order,
            params,
            count,
        ).len(),
    decreases count,
{
    if fewer < count {
        lemma_residuals_bits_len(samples, order, params, fewer, (count - 1) as nat);
    }
}

/// The residuals are the samples less the predictions, for every order and
/// every index from the order on.
pub proof fn lemma_residual_is_difference(samples: Seq<i32>, order: nat, i: int)
    requires
        order <= 4,
        order <= i < samples.len(),
    ensures
        order == 0 ==> residual(samples, order, i) == samples[i],
        order == 1 ==> residual(samples, order, i) == samples[i] - samples[i - 1],
        order == 2 ==> residual(samples, order, i) == samples[i] - (2 * samples[i - 1] - samples[i
            - 2]),
        order == 3 ==> residual(samples, order, i) == samples[i] - (3 * samples[i - 1] - 3
            * samples[i - 2] + samples[i - 3]),
        order == 4 ==> residual(samples, order, i) == samples[i] - (4 * samples[i - 1] - 6
            * samples[i - 2] + 4 * samples[i - 3] - samples[i - 4]),
{
}

/// The sample that a decoder reads from the bits of one sample: the number
/// that they spell in two's complement, with `wasted` zero bits below it.
pub open spec fn decoded_sample(bits: Seq<bool>, wasted: nat) -> int {
    signed_value(bits) * pow2(wasted)
}

/// The samples that a decoder reads from the body of a subframe of `count`
/// plain samples of `width` bits each.
pub open spec fn decoded_verbatim(bits: Seq<bool>, wasted: nat, width: nat, count: nat) -> Seq<
    int,
> {
    Seq::new(
        count,
        |i: int| decoded_sample(bits.subrange(i * width, i * width + width), wasted),
    )
}

/// A sample of `depth` bits whose `wasted` lowest bits are zero.
pub open spec fn sample_fits(sample: int, depth: nat, wasted: nat) -> bool {
    &&& -pow2((depth - 1) as nat) <= sample < pow2((depth - 1) as nat)
    &&& sample % (pow2(wasted) as int) == 0
}

proof fn lemma_halves(scale: int, value: int, half: int)
    by (nonlinear_arith)
    requires
        scale > 0,
        -(scale * half) <= scale * value < scale * half,
    ensures
        -half <= value < half,
{
}

proof fn lemma_signed_low_bits(x: nat, t: int, width: nat, m: int)
    requires
        width >= 1,
        -pow2((width - 1) as nat) <= t < pow2((width - 1) as nat),
        x == t + m * pow2(width),
    ensures
        signed_value(low_bits(x, width)) == t,
{
    let whole = pow2(width) as int;
    let half = pow2((width - 1) as nat) as int;
    vstd::arithmetic::power2::lemma_pow2_unfold(width);
    lemma_pow2_pos((width - 1) as nat);
    crate::bits::lemma_low_bits_value(x, width);
    assert(low_bits(x, width)[0] == bit_of(x, (width - 1) as nat));
    if t >= 0 {
        vstd::arithmetic::div_mod::lemma_fundamental_div_mod_converse(x as int, whole, m, t);
        assert(x == (2 * m) * half + t) by (nonlinear_arith)
            requires
                x == t + m * whole,
                whole == 2 * half,
        ;
        vstd::arithmetic::div_mod::lemma_fundamental_div_mod_converse(x as int, half, 2 * m, t);
    } else {
        assert(x == (m - 1) * whole + (t + whole)) by (nonlinear_arith)
            requires
                x == t + m * whole,
        ;
        vstd::arithmetic::div_mod::lemma_fundamental_div_mod_converse(
            x as int,
            whole,
            m - 1,
            t + whole,
        );
        assert(x == (2 * m - 1) * half + (t + half)) by (nonlinear_arith)
            requires
                x == t + m * whole,
                whole == 2 * half,
        ;
        vstd::arithmetic::div_mod::lemma_fundamental_div_mod_converse(
            x as int,
            half,
            2 * m - 1,
            t + half,
        );
    }
}

/// A decoder reads a sample back from its bits, if the sample has no more
/// than `depth` bits and its `wasted` lowest bits are zero.
pub proof fn lemma_sample_round_trip(sample: int, depth: nat, wasted: nat)
    requires
        wasted < depth <= 32,
        sample_fits(sample, depth, wasted),
    ensures
        decoded_sample(sample_bits(sample, wasted, (depth - wasted) as nat), wasted) == sample,
{
    let width = (depth - wasted) as nat;
    let scale = pow2(wasted) as int;
    let half = pow2((width - 1) as nat) as int;
    let top = pow2((32 - depth) as nat) as int;
    lemma2_to64();
    lemma_pow2_pos(wasted);
    lemma_pow2_pos((32 - depth) as nat);
    vstd::arithmetic::power2::lemma_pow2_adds(wasted, (width - 1) as nat);
    vstd::arithmetic::power2::lemma_pow2_adds(wasted, width);
    vstd::arithmetic::power2::lemma_pow2_adds(depth, (32 - depth) as nat);
    let t = sample / scale;
    vstd::arithmetic::div_mod::lemma_fundamental_div_mod(sample, scale);
    assert(sample == scale * t);
    lemma_halves(scale, t, half);
    let carry: int = if sample < 0 {
        1
    } else {
        0
    };
    let x = twos32(sample) / pow2(wasted);
    assert(twos32(sample) == scale * (t + carry * top * pow2(width))) by (nonlinear_arith)
        requires
            twos32(sample) == sample + carry * 0x1_0000_0000,
            sample == scale * t,
            0x1_0000_0000 == pow2(depth) * top,
            pow2(depth) == scale * pow2(width),
    ;
    vstd::arithmetic::div_mod::lemma_div_multiples_vanish(t + carry * top * pow2(width), scale);
    assert(x == t + (carry * top) * pow2(width)) by (nonlinear_arith)
        requires
            x == t + carry * top * pow2(width),
    ;
    lemma_signed_low_bits(x, t, width, carry * top);
    assert(t * scale == sample) by (nonlinear_arith)
        requires
            sample == scale * t,
    ;
}

/// `count` samples of `width` bits take `count * width` bits, and the bits
/// of sample `i` are the `i`-th run of `width` bits.
pub proof fn lemma_verbatim_bits_chunk(
    samples: Seq<i32>,
    wasted: nat,
    width: nat,
    count: nat,
    i: int,
)
    requires
        0 <= i < count,
    ensures
        verbatim_bits(samples, wasted, width, count).len() == count * width,
        verbatim_bits(samples, wasted, width, count).subrange(i * width, i * width + width)
            == sample_bits(samples[i] as int, wasted, width),
    decreases count,
{
    let front = verbatim_bits(samples, wasted, width, (count - 1) as nat);
    let last = sample_bits(samples[count - 1] as int, wasted, width);
    assert((count - 1) * width + width == count * width) by (nonlinear_arith);
    if count == 1 {
        assert(front.len() == 0);
        assert(0 * width == 0);
        assert((front + last).subrange(0, width as int) =~= last);
    } else if i == count - 1 {
        lemma_verbatim_bits_chunk(samples, wasted, width, (count - 1) as nat, 0);
        assert((front + last).subrange(i * width, i * width + width) =~= last);
    } else {
        lemma_verbatim_bits_chunk(samples, wasted, width, (count - 1) as nat, i);
        assert(i * width + width <= (count - 1) * width) by (nonlinear_arith)
            requires
                0 <= i < count - 1,
        ;
        assert((front + last).subrange(i * width, i * width + width) =~= front.subrange(
            i * width,
            i * width + width,
        ));
    }
}

/// A decoder reads the samples of a subframe of plain samples back exactly,
/// if every sample has no more than `depth` bits and its `wasted` lowest
/// bits are zero.
pub proof fn lemma_verbatim_round_trip(samples: Seq<i32>, depth: nat, wasted: nat)
    requires
        wasted < depth <= 32,
        forall|i: int| 0 <= i < samples.len() ==> sample_fits(samples[i] as int, depth, wasted),
    ensures
        decoded_verbatim(
            verbatim_bits(samples, wasted, (depth - wasted) as nat, samples.len()),
            wasted,
            (depth - wasted) as nat,
            samples.len(),
        ) == Seq::new(samples.len(), |i: int| samples[i] as int),
{
    let width = (depth - wasted) as nat;
    let bits = verbatim_bits(samples, wasted, width, samples.len());
    let decoded = decoded_verbatim(bits, wasted, width, samples.len());
    assert forall|i: int| 0 <= i < samples.len() implies decoded[i] == samples[i] as int by {
        lemma_verbatim_bits_chunk(samples, wasted, width, samples.len(), i);
        lemma_sample_round_trip(samples[i] as int, depth, wasted);
    }
    assert(decoded =~= Seq::new(samples.len(), |i: int| samples[i] as int));
}

/// The last `N` samples of a stream, and from them the residual of the next.
pub struct Predictor<const N: usize> {
    prev: [i32; N],
    last: usize,
}

impl<const N: usize> Predictor<N> {
    #[verifier::type_invariant]
    closed spec fn inv(&self) -> bool {
        N == 0 || self.last < N
    }

    spec fn slot(&self, j: int) -> int {
        if self.last + 1 + j < N {
            self.last + 1 + j
        } else {
            self.last + 1 + j - N
        }
    }

    /// The last `N` samples, the oldest first.
    pub closed spec fn history(&self) -> Seq<i32> {
        Seq::new(N as nat, |j: int| self.prev@[self.slot(j)])
    }

    /// A predictor that has seen `warm_up`.
    pub fn new(warm_up: [i32; N]) -> (predictor: Self)
        ensures
            predictor.history() == warm_up@,
    {
        let last = if N == 0 {
            0
        } else {
            N - 1
        };
        let predictor = Self { prev: warm_up, last };
        assert(predictor.history() =~= warm_up@);
        predictor
    }

    fn back(&self, k: usize) -> (sample: i64)
        requires
            k < N,
        ensures
            sample == self.history()[N - 1 - k],
    {
        proof {
            use_type_invariant(self);
        }
        let at = if self.last >= k {
            self.last - k
        } else {
            self.last + (N - k)
        };
        self.prev[at] as i64
    }

    /// Takes the next sample and returns its residual.
    pub fn next(&mut self, actual: i32) -> (error: i32)
        requires
            N <= 4,
            i32::MIN <= actual - predicted(old(self).history(), N as nat, N as int) <= i32::MAX,
        ensures
            error == actual - predicted(old(self).history(), N as nat, N as int),
            final(self).history() == old(self).history().push(actual).drop_first(),
    {
        proof {
            use_type_invariant(&*self);
        }
        let prediction: i64 = if N == 1 {
            self.back(0)
        } else if N == 2 {
            2 * self.back(0) - self.back(1)
        } else if N == 3 {
            3 * self.back(0) - 3 * self.back(1) + self.back(2)
        } else if N == 4 {
            4 * self.back(0) - 6 * self.back(1) + 4 * self.back(2) - self.back(3)
        } else {
            0
        };
        let error = (actual as i64 - prediction) as i32;
        if N > 0 {
            self.last = if self.last + 1 == N {
                0
            } else {
                self.last + 1
            };
            self.prev[self.last] = actual;
        }
        assert(self.history() =~= old(self).history().push(actual).drop_first());
        error
    }
}

/// One channel of one block.
#[derive(Clone, Copy)]
pub struct SubFrame<const N: usize> {
    header: SubFrameType,
    wasted_bits: u8,
    bit_depth: u8,
    samples: [i32; N],
}

impl<const N: usize> SubFrame<N> {
    /// The kind of the subframe.
    pub closed spec fn kind(&self) -> SubFrameType {
        self.header
    }

    /// The number of low bits that every sample leaves out.
    pub closed spec fn wasted(&self) -> nat {
        self.wasted_bits as nat
    }

    /// The number of bits of a sample.
    pub closed spec fn depth(&self) -> nat {
        self.bit_depth as nat
    }

    /// The samples of the block.
    pub closed spec fn samples(&self) -> Seq<i32> {
        self.samples@
    }

    /// A subframe can be written if its kind is implemented, fewer bits are
    /// wasted than a sample has, a constant has a sample, and a fixed
    /// predictor has its warm-up samples and residuals of at most 32 bits.
    pub open spec fn encodable(&self) -> bool {
        &&& self.kind().implemented()
        &&& self.wasted() < self.depth() <= 32
        &&& self.kind() is Constant ==> N >= 1
        &&& self.kind().fixed_order() matches Some(order) ==> order <= N && residuals_fit(
            self.samples(),
            order,
        )
    }

    /// The first byte: a zero bit, the tag of the kind, and whether bits are
    /// wasted.
    pub open spec fn header_byte(&self) -> u8 {
        (2 * self.kind().code() + if self.wasted() != 0 {
            1int
        } else {
            0int
        }) as u8
    }

    /// The bits after the first byte: the number of wasted bits less one in
    /// unary, if there are any, and the body.
    pub open spec fn stream_with(&self, method: ResidualCodingMethod, params: RiceParams) -> Seq<
        bool,
    > {
        let width = (self.depth() - self.wasted()) as nat;
        let marker = if self.wasted() != 0 {
            unary_bits((self.wasted() - 1) as nat)
        } else {
            Seq::empty()
        };
        let body = match self.kind() {
            SubFrameType::Constant => sample_bits(self.samples()[0] as int, self.wasted(), width),
            SubFrameType::Verbatim => verbatim_bits(self.samples(), self.wasted(), width, N as nat),
            _ => match self.kind().fixed_order() {
                Some(order) => fixed_bits(
                    self.samples(),
                    self.wasted(),
                    width,
                    order,
                    method,
                    params,
                ),
                None => Seq::empty(),
            },
        };
        marker + body
    }

    /// The bytes of the subframe, the last one filled up with zero bits.
    pub open spec fn encoding_with(&self, method: ResidualCodingMethod, params: RiceParams) -> Seq<
        u8,
    > {
        seq![self.header_byte()] + crate::bits::pack(self.stream_with(method, params))
    }

    /// The bytes of the subframe with Rice codes of parameter 5, written in
    /// four bits.
    pub open spec fn encoding(&self) -> Seq<u8> {
        self.encoding_with(ResidualCodingMethod::Rice4Bits, RiceParams::Param(5))
    }

    /// A subframe of one constant or of plain samples takes no more than
    /// five bytes and the bytes of its samples at their full depth.
    pub proof fn lemma_plain_encoding_len(&self)
        requires
            self.encodable(),
            self.kind() is Constant || self.kind() is Verbatim,
        ensures
            self.encoding().len() <= 5 + (N * self.depth() + 7) / 8,
    {
        let width = (self.depth() - self.wasted()) as nat;
        let stream = self.stream_with(ResidualCodingMethod::Rice4Bits, RiceParams::Param(5));
        lemma_verbatim_bits_total(self.samples(), self.wasted(), width, N as nat);
        let count: int = if self.kind() is Constant {
            1
        } else {
            N as int
        };
        assert(stream.len() == self.wasted() + count * width);
        assert(count * width <= N * self.depth()) by (nonlinear_arith)
            requires
                0 <= count <= N,
                0 <= width <= self.depth(),
        ;
    }

    /// A subframe of the given kind.
    pub fn new(
        header: SubFrameType,
        wasted_bits: u8,
        bit_depth: u8,
        samples: [i32; N],
    ) -> (sub_frame: Self)
        ensures
            sub_frame.kind() == header,
            sub_frame.wasted() == wasted_bits,
            sub_frame.depth() == bit_depth,
            sub_frame.samples() == samples@,
    {
        Self { header, wasted_bits, bit_depth, samples }
    }

    /// Whether the residuals of the fixed predictor of order `order` fit in
    /// 32 bits, and the block has its warm-up samples.
    fn residuals_in_range(&self, order: usize) -> (ok: bool)
        requires
            order <= 4,
        ensures
            ok == (order <= N && residuals_fit(self.samples(), order as nat)),
    {
        if order > N {
            return false;
        }
        let mut i: usize = order;
        while i < N
            invariant
                order <= i <= N,
                order <= 4,
                forall|k: int|
                    order <= k < i ==> i32::MIN <= #[trigger] residual(
                        self.samples@,
                        order as nat,
                        k,
                    ) <= i32::MAX,
            decreases N - i,
        {
            let prediction: i64 = if order == 1 {
                self.samples[i - 1] as i64
            } else if order == 2 {
                2 * (self.samples[i - 1] as i64) - self.samples[i - 2] as i64
            } else if order == 3 {
                3 * (self.samples[i - 1] as i64) - 3 * (self.samples[i - 2] as i64)
                    + self.samples[i - 3] as i64
            } else if order == 4 {
                4 * (self.samples[i - 1] as i64) - 6 * (self.samples[i - 2] as i64) + 4 * (
                self.samples[i - 3] as i64) - self.samples[i - 4] as i64
            } else {
                0
            };
            let error: i64 = self.samples[i] as i64 - prediction;
            if error < i32::MIN as i64 || error > i32::MAX as i64 {
                assert(error == residual(self.samples@, order as nat, i as int));
                return false;
            }
            i += 1;
        }
        true
    }

    /// Whether the subframe can be written.
    pub fn is_encodable(&self) -> (ok: bool)
        ensures
            ok == self.encodable(),
    {
        if self.wasted_bits >= self.bit_depth || self.bit_depth > 32 {
            return false;
        }
        match self.header {
            SubFrameType::Constant => N >= 1,
            SubFrameType::Verbatim => true,
            SubFrameType::FixedPredictorOrder0 => self.residuals_in_range(0),
            SubFrameType::FixedPredictorOrder1 => self.residuals_in_range(1),
            SubFrameType::FixedPredictorOrder2 => self.residuals_in_range(2),
            SubFrameType::FixedPredictorOrder3 => self.residuals_in_range(3),
            SubFrameType::FixedPredictorOrder4 => self.residuals_in_range(4),
            _ => false,
        }
    }

    /// Writes the subframe, with Rice codes of parameter 5 where it has
    /// residuals.
    pub fn write<BS: ByteSink>(&self, sink: &mut BS)
        requires
            self.encodable(),
            self.encoding().len() <= old(sink).room(),
        ensures
            final(sink).bytes() == old(sink).bytes() + self.encoding(),
            final(sink).room() == old(sink).room() - self.encoding().len(),
    {
        self.write_with(sink, ResidualCodingMethod::Rice4Bits, &RiceParams::Param(5))
    }

    /// Writes the subframe, its residuals coded as `params` says.
    pub fn write_with<BS: ByteSink>(
        &self,
        sink: &mut BS,
        method: ResidualCodingMethod,
        params: &RiceParams,
    )
        requires
            self.encodable(),
            params.valid(method),
            self.encoding_with(method, *params).len() <= old(sink).room(),
        ensures
            final(sink).bytes() == old(sink).bytes() + self.encoding_with(method, *params),
            final(sink).room() == old(sink).room() - self.encoding_with(method, *params).len(),
    {
        let ghost start = sink.bytes();
        let ghost stream = self.stream_with(method, *params);
        let flag: u8 = if self.wasted_bits != 0 {
            1
        } else {
            0
        };
        let header = self.header.as_u8() * 2 + flag;
        sink.write(header);
        let mut bit_sink = BitSinkAdapter::new(sink);
        let ghost front = bit_sink.bits();
        proof {
            assert(front == crate::bits::bytes_bits(start.push(header)));
            assert(crate::bits::pack(stream).len() * 8 >= stream.len());
        }
        if self.wasted_bits != 0 {
            unary_code((self.wasted_bits - 1) as u32, &mut bit_sink);
        }
        match self.header {
            SubFrameType::Constant => {
                write_sample(self.samples[0], &mut bit_sink, self.bit_depth, self.wasted_bits);
            },
            SubFrameType::Verbatim => {
                self.write_verbatim(&mut bit_sink);
            },
            SubFrameType::FixedPredictorOrder0 => self.wirte_predictor::<0, BS>(
                method,
                params,
                &mut bit_sink,
            ),
            SubFrameType::FixedPredictorOrder1 => self.wirte_predictor::<1, BS>(
                method,
                params,
                &mut bit_sink,
            ),
            SubFrameType::FixedPredictorOrder2 => self.wirte_predictor::<2, BS>(
                method,
                params,
                &mut bit_sink,
            ),
            SubFrameType::FixedPredictorOrder3 => self.wirte_predictor::<3, BS>(
                method,
                params,
                &mut bit_sink,
            ),
            SubFrameType::FixedPredictorOrder4 => self.wirte_predictor::<4, BS>(
                method,
                params,
                &mut bit_sink,
            ),
            _ => {},
        }
        proof {
            assert(bit_sink.bits() =~= front + stream);
            crate::bits::lemma_pack_after_bytes(start.push(header), stream);
            assert(start.push(header) + crate::bits::pack(stream) =~= start + self.encoding_with(
                method,
                *params,
            ));
        }
        bit_sink.flush();
    }

    /// Writes the body of a subframe of plain samples.
    fn write_verbatim<'a, BS: ByteSink>(&self, bit_sink: &mut BitSinkAdapter<'a, BS>)
        requires
            old(bit_sink).wf(),
            self.wasted() < self.depth() <= 32,
            verbatim_bits(
                self.samples(),
                self.wasted(),
                (self.depth() - self.wasted()) as nat,
                N as nat,
            ).len() <= old(bit_sink).room(),
        ensures
            final(bit_sink).wf(),
            final(bit_sink).bits() == old(bit_sink).bits() + verbatim_bits(
                self.samples(),
                self.wasted(),
                (self.depth() - self.wasted()) as nat,
                N as nat,
            ),
            final(bit_sink).room() == old(bit_sink).room() - verbatim_bits(
                self.samples(),
                self.wasted(),
                (self.depth() - self.wasted()) as nat,
                N as nat,
            ).len(),
            *final(final(bit_sink).inner()) == *final(old(bit_sink).inner()),
    {
        let ghost before = bit_sink.bits();
        let ghost room = bit_sink.room();
        let ghost width = (self.bit_depth - self.wasted_bits) as nat;
        let ghost wasted = self.wasted_bits as nat;
        let mut i: usize = 0;
        while i < N
            invariant
                bit_sink.wf(),
                i <= N,
                self.wasted_bits < self.bit_depth <= 32,
                width == self.bit_depth - self.wasted_bits,
                wasted == self.wasted_bits,
                bit_sink.bits() == before + verbatim_bits(self.samples@, wasted, width, i as nat),
                bit_sink.room() + verbatim_bits(self.samples@, wasted, width, i as nat).len()
                    == room,
                verbatim_bits(self.samples@, wasted, width, N as nat).len() <= room,
                *final(bit_sink.inner()) == *final(old(bit_sink).inner()),
            decreases N - i,
        {
            proof {
                lemma_verbatim_bits_len(self.samples@, wasted, width, (i + 1) as nat, N as nat);
            }
            write_sample(self.samples[i], bit_sink, self.bit_depth, self.wasted_bits);
            i += 1;
        }
    }

    /// Writes the body of a subframe with the fixed predictor of order
    /// `ORDER`.
    pub fn wirte_predictor<'a, const ORDER: usize, BS: ByteSink>(
        &self,
        method: ResidualCodingMethod,
        params: &RiceParams,
        bit_sink: &mut BitSinkAdapter<'a, BS>,
    )
        requires
            old(bit_sink).wf(),
            ORDER <= 4,
            ORDER <= N,
            self.wasted() < self.depth() <= 32,
            params.valid(method),
            residuals_fit(self.samples(), ORDER as nat),
            fixed_bits(
                self.samples(),
                self.wasted(),
                (self.depth() - self.wasted()) as nat,
                ORDER as nat,
                method,
                *params,
            ).len() <= old(bit_sink).room(),
        ensures
            final(bit_sink).wf(),
            final(bit_sink).bits() == old(bit_sink).bits() + fixed_bits(
                self.samples(),
                self.wasted(),
                (self.depth() - self.wasted()) as nat,
                ORDER as nat,
                method,
                *params,
            ),
            final(bit_sink).room() == old(bit_sink).room() - fixed_bits(
                self.samples(),
                self.wasted(),
                (self.depth() - self.wasted()) as nat,
                ORDER as nat,
                method,
                *params,
            ).len(),
            *final(final(bit_sink).inner()) == *final(old(bit_sink).inner()),
    {
        let ghost before = bit_sink.bits();
        let ghost room = bit_sink.room();
        let ghost width = (self.bit_depth - self.wasted_bits) as nat;
        let ghost wasted = self.wasted_bits as nat;
        let ghost count = (N - ORDER) as nat;
        let ghost total = fixed_bits(self.samples@, wasted, width, ORDER as nat, method, *params);
        let mut warm_up = [0i32; ORDER];
        let mut i: usize = 0;
        while i < ORDER
            invariant
                bit_sink.wf(),
                i <= ORDER <= N,
                self.wasted_bits < self.bit_depth <= 32,
                width == self.bit_depth - self.wasted_bits,
                wasted == self.wasted_bits,
                bit_sink.bits() == before + verbatim_bits(self.samples@, wasted, width, i as nat),
                bit_sink.room() + verbatim_bits(self.samples@, wasted, width, i as nat).len()
                    == room,
                verbatim_bits(self.samples@, wasted, width, ORDER as nat).len() <= room,
                forall|k: int| 0 <= k < i ==> warm_up@[k] == self.samples@[k],
                *final(bit_sink.inner()) == *final(old(bit_sink).inner()),
            decreases ORDER - i,
        {
            proof {
                lemma_verbatim_bits_len(self.samples@, wasted, width, (i + 1) as nat, ORDER as nat);
            }
            write_sample(self.samples[i], bit_sink, self.bit_depth, self.wasted_bits);
            warm_up[i] = self.samples[i];
            i += 1;
        }
        let ghost warm = verbatim_bits(self.samples@, wasted, width, ORDER as nat);
        bit_sink.write(method.as_u8(), 2);
        let partition_order: u8 = 0;
        bit_sink.write(partition_order, 4);
        proof {
            lemma_low_bits_zero(4);
        }
        params.write(bit_sink, method);
        let ghost preamble = warm + low_bits(method.code() as nat, 2) + zeros(4) + params.bits(
            method,
        );
        let mut predictor = Predictor::<ORDER>::new(warm_up);
        proof {
            assert(predictor.history() =~= self.samples@.subrange(0, ORDER as int));
        }
        while i < N
            invariant
                bit_sink.wf(),
                ORDER <= i <= N,
                ORDER <= 4,
                count == N - ORDER,
                params.valid(method),
                residuals_fit(self.samples@, ORDER as nat),
                predictor.history() == self.samples@.subrange(i - ORDER, i as int),
                bit_sink.bits() == before + preamble + residuals_bits(
                    self.samples@,
                    ORDER as nat,
                    *params,
                    (i - ORDER) as nat,
                ),
                bit_sink.room() + preamble.len() + residuals_bits(
                    self.samples@,
                    ORDER as nat,
                    *params,
                    (i - ORDER) as nat,
                ).len() == room,
                preamble.len() + residuals_bits(self.samples@, ORDER as nat, *params, count).len()
                    <= room,
                *final(bit_sink.inner()) == *final(old(bit_sink).inner()),
            decreases N - i,
        {
            proof {
                lemma_residuals_bits_len(
                    self.samples@,
                    ORDER as nat,
                    *params,
                    (i - ORDER + 1) as nat,
                    count,
                );
                let window = self.samples@.subrange(i - ORDER, i as int);
                assert(predicted(window, ORDER as nat, ORDER as int) == predicted(
                    self.samples@,
                    ORDER as nat,
                    i as int,
                ));
                assert(i32::MIN <= residual(self.samples@, ORDER as nat, i as int) <= i32::MAX);
            }
            let error = predictor.next(self.samples[i]);
            residual_codeing(params, bit_sink, error);
            proof {
                assert(predictor.history() =~= self.samples@.subrange(i + 1 - ORDER, i + 1));
            }
            i += 1;
        }
        proof {
            assert(bit_sink.bits() =~= before + total);
        }
    }
}

} // verus!
