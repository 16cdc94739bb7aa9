//! Bounded random weights: a raw draw from `[1, 1100)` is clamped so that
//! every weight handed out lies in `[1, 999]`.

use vstd::prelude::*;

verus! {

/// The largest weight the mapping may hold; raw draws above it collapse onto it.
pub const MAX_WEIGHT: u32 = 999;

/// The clamping rule: a raw draw above `MAX_WEIGHT` becomes `MAX_WEIGHT`,
/// anything else passes through unchanged.
pub open spec fn clamped(raw: u32) -> u32 {
    if raw > MAX_WEIGHT {
        MAX_WEIGHT
    } else {
        raw
    }
}

/// Clamps a raw draw into the weight range.
pub fn clamp_weight(raw: u32) -> (w: u32)
    ensures
        w == clamped(raw),
        raw > 999 ==> w == 999,
        raw <= 999 ==> w == raw,
{
    if raw > MAX_WEIGHT {
        MAX_WEIGHT
    } else {
        raw
    }
}

/// The thread-local random generator of the `rand` crate, opaque here; one
/// instance is shared by a whole run.
#[verifier::external_type_specification]
#[verifier::external_body]
pub struct ExThreadRng(rand::rngs::ThreadRng);

/// Relies on rand::thread_rng: hands out the thread-local generator.
#[verifier::external_body]
pub fn fresh_rng() -> (r: rand::rngs::ThreadRng) {
    rand::thread_rng()
}

/// Relies on rand::Rng::gen_range: a value drawn from the given range, here
/// `1..1100`, so the result always lies in `[1, 1099]`. Nothing more is
/// promised of a random draw.
#[verifier::external_body]
fn draw_raw(rng: &mut rand::rngs::ThreadRng) -> (r: u32)
    ensures
        1 <= r < 1100,
{
    rand::Rng::gen_range(rng, 1..1100u32)
}

/// Draws one weight: a raw draw from `[1, 1100)`, clamped into `[1, 999]`.
/// Every weight this returns lies in the closed range `[1, 999]`.
pub fn draw_weight(rng: &mut rand::rngs::ThreadRng) -> (w: u32)
    ensures
        1 <= w <= 999,
{
    let raw = draw_raw(rng);
    clamp_weight(raw)
}

} // verus!
