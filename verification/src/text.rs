//! Decimal rendering of indices and the messages of scan errors.

use vstd::prelude::*;
use crate::laser_data::LaserDataError;

verus! {

/// The character of a decimal digit.
pub open spec fn digit_char(d: nat) -> char {
    if d == 0 {
        '0'
    } else if d == 1 {
        '1'
    } else if d == 2 {
        '2'
    } else if d == 3 {
        '3'
    } else if d == 4 {
        '4'
    } else if d == 5 {
        '5'
    } else if d == 6 {
        '6'
    } else if d == 7 {
        '7'
    } else if d == 8 {
        '8'
    } else {
        '9'
    }
}

/// The decimal representation of `n`, without leading zeros.
pub open spec fn decimal(n: nat) -> Seq<char>
    decreases n,
{
    if n < 10 {
        seq![digit_char(n)]
    } else {
        decimal(n / 10).push(digit_char(n % 10))
    }
}

fn digit_str(d: u8) -> (s: &'static str)
    requires
        d < 10,
    ensures
        s@ == seq![digit_char(d as nat)],
{
    proof {
        reveal_strlit("0");
        reveal_strlit("1");
        reveal_strlit("2");
        reveal_strlit("3");
        reveal_strlit("4");
        reveal_strlit("5");
        reveal_strlit("6");
        reveal_strlit("7");
        reveal_strlit("8");
        reveal_strlit("9");
    }
    match d {
        0 => "0",
        1 => "1",
        2 => "2",
        3 => "3",
        4 => "4",
        5 => "5",
        6 => "6",
        7 => "7",
        8 => "8",
        _ => "9",
    }
}

/// Render `n` in decimal.
pub fn decimal_text(n: usize) -> (text: String)
    ensures
        text@ == decimal(n as nat),
    decreases n,
{
    if n < 10 {
        let mut text = String::new();
        text.append(digit_str(n as u8));
        assert(text@ =~= decimal(n as nat));
        text
    } else {
        let mut text = decimal_text(n / 10);
        text.append(digit_str((n % 10) as u8));
        assert(text@ =~= decimal(n as nat));
        text
    }
}

/// The display text of each scan error.
pub open spec fn laser_data_error_text(error: LaserDataError) -> Seq<char> {
    match error {
        LaserDataError::NraysOutOfRange => "invalid number of rays (need 10..=10000)"@,
        LaserDataError::NanThetaBounds => "NaN min/max theta"@,
        LaserDataError::FovOutOfRange => "FOV outside [20 deg, 2.01 pi]"@,
        LaserDataError::ThetaBoundsMismatch => "min/max theta do not match theta[0]/theta[last]"@,
        LaserDataError::BadValidRay(i) => "ray #"@ + decimal(i as nat)
            + ": NaN or out-of-(0,100) reading on valid ray"@,
        LaserDataError::BadCluster(i) => "ray #"@ + decimal(i as nat) + ": bad cluster value"@,
        LaserDataError::NegativeSigma(i) => "ray #"@ + decimal(i as nat)
            + ": negative readings_sigma"@,
        LaserDataError::TooFewValidRays => "fewer than 10% valid rays"@,
        LaserDataError::InconsistentLengths { field, expected, actual } => field@
            + ": expected "@ + decimal(expected as nat) + " entries, got "@ + decimal(
            actual as nat,
        ),
        LaserDataError::CapacityExceeded { capacity, requested } => "scan of "@ + decimal(
            requested as nat,
        ) + " rays exceeds the reserved capacity of "@ + decimal(capacity as nat),
        LaserDataError::NonFiniteBearing(i) => "ray #"@ + decimal(i as nat)
            + ": non-finite bearing on valid point"@,
        LaserDataError::DuplicateBearing(i) => "ray #"@ + decimal(i as nat)
            + ": same bearing as the previous valid point"@,
        LaserDataError::NonFiniteGuess => "non-finite initial pose"@,
    }
}

fn ray_message(i: usize, detail: &'static str) -> (text: String)
    ensures
        text@ == "ray #"@ + decimal(i as nat) + detail@,
{
    let mut text = String::from_str("ray #");
    let number = decimal_text(i);
    text.append(number.as_str());
    text.append(detail);
    text
}

impl LaserDataError {
    /// The human-readable description of this error.
    pub fn to_string(&self) -> (text: String)
        ensures
            text@ == laser_data_error_text(*self),
    {
        match *self {
            LaserDataError::NraysOutOfRange => String::from_str(
                "invalid number of rays (need 10..=10000)",
            ),
            LaserDataError::NanThetaBounds => String::from_str("NaN min/max theta"),
            LaserDataError::FovOutOfRange => String::from_str("FOV outside [20 deg, 2.01 pi]"),
            LaserDataError::ThetaBoundsMismatch => String::from_str(
                "min/max theta do not match theta[0]/theta[last]",
            ),
            LaserDataError::BadValidRay(i) => ray_message(
                i,
                ": NaN or out-of-(0,100) reading on valid ray",
            ),
            LaserDataError::BadCluster(i) => ray_message(i, ": bad cluster value"),
            LaserDataError::NegativeSigma(i) => ray_message(i, ": negative readings_sigma"),
            LaserDataError::TooFewValidRays => String::from_str("fewer than 10% valid rays"),
            LaserDataError::InconsistentLengths { field, expected, actual } => {
                let mut text = String::from_str(field);
                text.append(": expected ");
                text.append(decimal_text(expected).as_str());
                text.append(" entries, got ");
                text.append(decimal_text(actual).as_str());
                text
            },
            LaserDataError::CapacityExceeded { capacity, requested } => {
                let mut text = String::from_str("scan of ");
                text.append(decimal_text(requested).as_str());
                text.append(" rays exceeds the reserved capacity of ");
                text.append(decimal_text(capacity).as_str());
                text
            },
            LaserDataError::NonFiniteBearing(i) => ray_message(
                i,
                ": non-finite bearing on valid point",
            ),
            LaserDataError::DuplicateBearing(i) => ray_message(
                i,
                ": same bearing as the previous valid point",
            ),
            LaserDataError::NonFiniteGuess => String::from_str("non-finite initial pose"),
        }
    }
}

} // verus!
