//! Decay rates in fixed point.
//!
//! A decay rate lies in [0.01, 1.00] and is held as a whole number of
//! hundredths, so 0.35 is the value 35 and 1.00 is 100.  Working in
//! hundredths keeps every rate exactly representable and lets the weight
//! engine compute with integers alone.

use vstd::prelude::*;
use vstd::string::StringExecFns;
use crate::digits::{digit_char, digit_str};
use crate::error::StoreError;

verus! {

/// Smallest accepted decay rate, in hundredths (0.01).
pub const MIN_DECAY_CENTI: u8 = 1;
/// Largest accepted decay rate, in hundredths (1.00).
pub const MAX_DECAY_CENTI: u8 = 100;
/// Decay rate offered by default when a new item is created (0.90).
pub const DEFAULT_DECAY_CENTI: u8 = 90;

/// A validated decay rate, in hundredths.
#[derive(Clone, Copy, Debug, PartialEq, Eq, Structural)]
pub struct DecayRate {
    centi: u8,
}

impl DecayRate {
    /// The rate in hundredths.
    pub closed spec fn spec_centi(&self) -> int {
        self.centi as int
    }

    /// A rate is valid when it lies in [0.01, 1.00].
    pub open spec fn valid(&self) -> bool {
        MIN_DECAY_CENTI <= self.spec_centi() <= MAX_DECAY_CENTI
    }

    /// Builds a rate from a count of hundredths known to be in range.
    pub fn new(centi: u8) -> (r: DecayRate)
        requires
            MIN_DECAY_CENTI <= centi <= MAX_DECAY_CENTI,
        ensures
            r.valid(),
            r.spec_centi() == centi,
    {
        DecayRate { centi }
    }

    /// The rate in hundredths, for callers outside the proof.
    pub fn centi(&self) -> (r: u8)
        ensures
            r == self.spec_centi(),
    {
        self.centi
    }

    /// The default rate, 0.90.
    pub fn default_rate() -> (r: DecayRate)
        ensures
            r.valid(),
            r.spec_centi() == DEFAULT_DECAY_CENTI,
    {
        DecayRate { centi: DEFAULT_DECAY_CENTI }
    }

    /// The rate as decimal text, the way the interface shows it.
    pub fn text(&self) -> (r: String)
        requires
            self.valid(),
        ensures
            r@ == rate_text_spec(self.spec_centi()),
    {
        if self.centi == 100 {
            let r = "1".to_owned();
            proof {
                reveal_strlit("1");
                assert(r@ =~= rate_text_spec(self.spec_centi()));
            }
            return r;
        }
        let tens = self.centi / 10;
        let ones = self.centi % 10;
        let mut s = "0.".to_owned();
        proof {
            reveal_strlit("0.");
        }
        s.append(digit_str(tens));
        if ones != 0 {
            s.append(digit_str(ones));
        }
        proof {
            assert(s@ =~= rate_text_spec(self.spec_centi()));
        }
        s
    }
}

/// The decimal text of a rate in hundredths: "1" for 1.00, otherwise
/// "0." and one or two digits, the trailing zero dropped.
pub open spec fn rate_text_spec(c: int) -> Seq<char> {
    if c == 100 {
        seq!['1']
    } else if c % 10 == 0 {
        seq!['0', '.', digit_char(c / 10)]
    } else {
        seq!['0', '.', digit_char(c / 10), digit_char(c % 10)]
    }
}

/// Accepts a rate given in hundredths exactly when it lies in
/// [0.01, 1.00]; anything else is rejected as out of range.
pub fn validate_decay_rate_range(centi: i64) -> (r: Result<DecayRate, StoreError>)
    ensures
        r is Ok <==> MIN_DECAY_CENTI <= centi <= MAX_DECAY_CENTI,
        r matches Ok(d) ==> d.valid() && d.spec_centi() == centi,
        r matches Err(e) ==> e == StoreError::DecayRateOutOfRange,
{
    if MIN_DECAY_CENTI as i64 <= centi && centi <= MAX_DECAY_CENTI as i64 {
        Ok(DecayRate { centi: centi as u8 })
    } else {
        Err(StoreError::DecayRateOutOfRange)
    }
}

} // verus!
