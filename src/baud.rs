//! The baud register value of a UART that divides a core clock with a
//! fractional, sample-based generator.
use vstd::prelude::*;

verus! {

/// Bits of fixed-point precision in the ratio of sample rate to clock.
pub const SHIFT: u64 = 32;

/// The register value before it is cut to sixteen bits:
/// `65536 * (1 - samples * baud / clock)`, in fixed point.
pub open spec fn baud_value(baudrate: u32, clk_freq: u32, n_samples: u8) -> int {
    let ratio = (n_samples * baudrate * 0x1_0000_0000) / (clk_freq as int);
    (65536 * (0x1_0000_0000 - ratio)) / 0x1_0000_0000
}

/// The baud register value for `baudrate` from a clock of `clk_freq` hertz
/// with `n_samples` samples per bit. The sample rate must not exceed the clock.
pub fn calculate_baud_value(baudrate: u32, clk_freq: u32, n_samples: u8) -> (r: u16)
    requires
        clk_freq > 0,
        n_samples * baudrate <= clk_freq,
    ensures
        r == baud_value(baudrate, clk_freq, n_samples) % 65536,
{
    let product: u64 = n_samples as u64 * baudrate as u64;
    assert(product <= u32::MAX);
    let sample_rate: u64 = product * 0x1_0000_0000;
    let ratio: u64 = sample_rate / clk_freq as u64;
    assert(ratio <= 0x1_0000_0000) by (nonlinear_arith)
        requires
            ratio == sample_rate / clk_freq as u64,
            sample_rate == product * 0x1_0000_0000,
            product <= clk_freq,
            clk_freq > 0,
    {
        assert(product * 0x1_0000_0000 <= (clk_freq as int) * 0x1_0000_0000);
    }
    assert(1u64 << SHIFT == 0x1_0000_0000u64) by (bit_vector)
        requires
            SHIFT == 32u64,
    ;
    let scale: u64 = (1u64 << SHIFT) - ratio;
    let scaled: u64 = 65536u64 * scale;
    let baud_calculated: u64 = scaled >> SHIFT;
    assert(scaled >> SHIFT == scaled / 0x1_0000_0000) by (bit_vector)
        requires
            SHIFT == 32u64,
    ;
    assert(baud_calculated == baud_value(baudrate, clk_freq, n_samples));
    let r: u16 = #[verifier::truncate] (baud_calculated as u16);
    assert(r == baud_calculated % 65536) by (bit_vector)
        requires
            r == #[verifier::truncate] (baud_calculated as u16),
    ;
    r
}

} // verus!
