//! Energy production rate bounds.
use crate::errors::{KernelError, KernelResult};
use crate::text::{int_text, push_i64, push_str};
use vstd::prelude::*;

verus! {

/// The no-starvation minimum for energy produced per tick: the cost of an
/// execute (25) plus the minimum append cost (1).
pub const MIN_ENERGY_PER_TICK: i64 = 26;

/// Raises a rate to the no-starvation minimum.
pub fn clamp_energy_per_tick(raw: i64) -> (r: i64)
    ensures
        r == if raw < MIN_ENERGY_PER_TICK {
            MIN_ENERGY_PER_TICK
        } else {
            raw
        },
{
    if raw < MIN_ENERGY_PER_TICK {
        MIN_ENERGY_PER_TICK
    } else {
        raw
    }
}

/// The rate in force: the explicit setting when present, otherwise the rate
/// derived from the hardware.
pub fn effective_energy_per_tick(energy_per_tick: Option<i64>, derived: i64) -> (r: i64)
    ensures
        r == match energy_per_tick {
            Some(e) => e,
            None => derived,
        },
{
    match energy_per_tick {
        Some(e) => e,
        None => derived,
    }
}

/// Rejects an explicit rate below the no-starvation minimum.
pub fn validate_energy_per_tick(energy_per_tick: Option<i64>) -> (r: KernelResult<()>)
    ensures
        r is Ok <==> match energy_per_tick {
            Some(e) => e >= MIN_ENERGY_PER_TICK,
            None => true,
        },
        r matches Err(e) ==> (e matches KernelError::PolicyViolation(d) && d@
            == "stellar config: energy_per_tick ("@ + int_text(energy_per_tick->0 as int)
            + ") is below minimum (26)"@),
{
    match energy_per_tick {
        Some(e) => {
            if e < MIN_ENERGY_PER_TICK {
                let mut d = String::new();
                push_str(&mut d, "stellar config: energy_per_tick (");
                push_i64(&mut d, e);
                push_str(&mut d, ") is below minimum (26)");
                assert(d@ =~= "stellar config: energy_per_tick ("@ + int_text(e as int)
                    + ") is below minimum (26)"@);
                return Err(KernelError::PolicyViolation(d));
            }
            Ok(())
        },
        None => Ok(()),
    }
}

} // verus!
