//! From a pace to each metric of a table row.
//!
//! Every metric is a quotient of integers rounded once to the nearest unit
//! (`round_div`), then written as text. A pace of zero has no speed; each
//! operation refuses it.

use crate::rounding::{
    is_nearest, lemma_nearest_is_round_div, lemma_round_div_decreasing,
    lemma_round_div_increasing, lemma_round_div_nearest, round_div, rounded_quotient,
};
use crate::text::{
    clock_string, clock_text, fixed3_string, fixed3_text, is_duration_text,
    lemma_clock_text_shape, lemma_zero_hour_clock,
};
use vstd::arithmetic::mul::lemma_mul_upper_bound;
use vstd::prelude::*;

verus! {

/// Seconds in an hour.
pub const SECONDS_PER_HOUR: u64 = 3600;

/// Miles in a kilometre, in millionths of a mile: 0.621371 miles.
pub const MICROMILES_PER_KM: u64 = 621_371;

/// Centimetres in a kilometre.
pub const CM_PER_KM: u64 = 100_000;

/// Why a conversion was refused.
#[derive(Debug, Clone, Copy, PartialEq, Eq, Structural)]
pub enum ConversionError {
    /// The pace was zero seconds per kilometre.
    ZeroPace,
}

impl ConversionError {
    /// A sentence for the person who asked for the conversion.
    pub fn message(&self) -> (text: &'static str)
        ensures
            text@ == "pace must be a positive number of seconds per kilometre"@,
    {
        "pace must be a positive number of seconds per kilometre"
    }
}

/// Kilometres per hour at `pace`, in thousandths: `3600 / pace`, times a thousand, rounded.
pub open spec fn kph_thousandths(pace: int) -> int {
    round_div(1000 * SECONDS_PER_HOUR as int, pace)
}

/// Miles per hour at `pace`, in thousandths: `3600 / pace * 0.621371`, times a thousand, rounded.
pub open spec fn mph_thousandths(pace: int) -> int {
    round_div(SECONDS_PER_HOUR as int * MICROMILES_PER_KM as int, 1000 * pace)
}

/// Seconds per mile at `pace`: `pace / 0.621371`, rounded.
pub open spec fn mile_pace_seconds(pace: int) -> int {
    round_div(pace * 1_000_000, MICROMILES_PER_KM as int)
}

/// Seconds needed for `distance_cm` centimetres at `pace`: `distance * pace / 1000`
/// with the distance in metres, rounded.
pub open spec fn estimate_seconds(pace: int, distance_cm: int) -> int {
    round_div(distance_cm * pace, CM_PER_KM as int)
}

/// Seconds as a pace: a literal hour "0", then all the minutes, then the seconds.
pub open spec fn pace_clock(seconds: int) -> Seq<char> {
    clock_text(0, (seconds / 60) as nat, (seconds % 60) as nat)
}

/// Seconds as a duration: hours, minutes below sixty, seconds below sixty.
pub open spec fn duration_clock(seconds: int) -> Seq<char> {
    clock_text((seconds / 3600) as nat, ((seconds / 60) % 60) as nat, (seconds % 60) as nat)
}

/// What `km_pace` writes for a positive pace.
pub open spec fn km_pace_text(pace: int) -> Seq<char> {
    pace_clock(pace)
}

/// What `km_per_hour` writes for a positive pace.
pub open spec fn km_per_hour_text(pace: int) -> Seq<char> {
    fixed3_text(kph_thousandths(pace) as nat)
}

/// What `mile_pace` writes for a positive pace.
pub open spec fn mile_pace_text(pace: int) -> Seq<char> {
    pace_clock(mile_pace_seconds(pace))
}

/// What `miles_per_hour` writes for a positive pace.
pub open spec fn miles_per_hour_text(pace: int) -> Seq<char> {
    fixed3_text(mph_thousandths(pace) as nat)
}

/// What `distance_estimate` writes for a positive pace.
pub open spec fn distance_estimate_text(pace: int, distance_cm: int) -> Seq<char> {
    duration_clock(estimate_seconds(pace, distance_cm))
}

/// Writes seconds as a pace.
fn pace_string(seconds: u128) -> (s: String)
    ensures
        s@ == pace_clock(seconds as int),
{
    clock_string(0, seconds / 60, seconds % 60)
}

/// The pace itself as `0:MM:SS`: whole minutes, then the seconds that are left.
/// A pace of an hour or more has sixty minutes or more.
pub fn km_pace(pace: u32) -> (r: Result<String, ConversionError>)
    ensures
        pace == 0 ==> r == Err::<String, ConversionError>(ConversionError::ZeroPace),
        pace > 0 ==> r is Ok && r->Ok_0@ == km_pace_text(pace as int),
{
    if pace == 0 {
        return Err(ConversionError::ZeroPace);
    }
    Ok(pace_string(pace as u128))
}

/// The speed in kilometres per hour, with three decimals.
pub fn km_per_hour(pace: u32) -> (r: Result<String, ConversionError>)
    ensures
        pace == 0 ==> r == Err::<String, ConversionError>(ConversionError::ZeroPace),
        pace > 0 ==> r is Ok && r->Ok_0@ == km_per_hour_text(pace as int),
{
    if pace == 0 {
        return Err(ConversionError::ZeroPace);
    }
    let thousandths = rounded_quotient(1000 * (SECONDS_PER_HOUR as u128), pace as u128);
    proof {
        lemma_round_div_nearest(1000 * SECONDS_PER_HOUR as int, pace as int);
    }
    Ok(fixed3_string(thousandths))
}

/// The time for one mile as `0:MM:SS`, rounded to the second; seconds that
/// round to sixty are carried into the minutes.
pub fn mile_pace(pace: u32) -> (r: Result<String, ConversionError>)
    ensures
        pace == 0 ==> r == Err::<String, ConversionError>(ConversionError::ZeroPace),
        pace > 0 ==> r is Ok && r->Ok_0@ == mile_pace_text(pace as int),
{
    if pace == 0 {
        return Err(ConversionError::ZeroPace);
    }
    let seconds = rounded_quotient((pace as u128) * 1_000_000, MICROMILES_PER_KM as u128);
    Ok(pace_string(seconds))
}

/// The speed in miles per hour, with three decimals.
pub fn miles_per_hour(pace: u32) -> (r: Result<String, ConversionError>)
    ensures
        pace == 0 ==> r == Err::<String, ConversionError>(ConversionError::ZeroPace),
        pace > 0 ==> r is Ok && r->Ok_0@ == miles_per_hour_text(pace as int),
{
    if pace == 0 {
        return Err(ConversionError::ZeroPace);
    }
    let thousandths = rounded_quotient(
        (SECONDS_PER_HOUR as u128) * (MICROMILES_PER_KM as u128),
        1000 * (pace as u128),
    );
    proof {
        lemma_round_div_nearest(
            SECONDS_PER_HOUR as int * MICROMILES_PER_KM as int,
            1000 * pace as int,
        );
    }
    Ok(fixed3_string(thousandths))
}

/// The time for `distance_cm` centimetres as `H:MM:SS`, rounded to the
/// second. The hours take the digits they need; seconds that round to sixty
/// are carried into the minutes, and minutes into the hours.
pub fn distance_estimate(pace: u32, distance_cm: u64) -> (r: Result<String, ConversionError>)
    ensures
        pace == 0 ==> r == Err::<String, ConversionError>(ConversionError::ZeroPace),
        pace > 0 ==> r is Ok && r->Ok_0@ == distance_estimate_text(
            pace as int,
            distance_cm as int,
        ),
{
    if pace == 0 {
        return Err(ConversionError::ZeroPace);
    }
    proof {
        lemma_mul_upper_bound(distance_cm as int, u64::MAX as int, pace as int, u32::MAX as int);
    }
    let seconds = rounded_quotient((distance_cm as u128) * (pace as u128), CM_PER_KM as u128);
    Ok(clock_string(seconds / 3600, (seconds / 60) % 60, seconds % 60))
}

/// The pace is written as a well-formed duration, minutes and seconds both
/// below sixty, exactly where it is below an hour per kilometre.
pub proof fn lemma_km_pace_is_duration(pace: int)
    requires
        1 <= pace,
    ensures
        is_duration_text(km_pace_text(pace)) <==> pace < 3600,
{
    lemma_zero_hour_clock((pace / 60) as nat, (pace % 60) as nat);
}

/// The pace per mile is written as a well-formed duration exactly where it
/// is below an hour per mile: up to 2236 seconds per kilometre.
pub proof fn lemma_mile_pace_is_duration(pace: int)
    requires
        1 <= pace,
    ensures
        0 <= mile_pace_seconds(pace),
        mile_pace_seconds(pace) < 3600 <==> pace <= 2236,
        is_duration_text(mile_pace_text(pace)) <==> pace <= 2236,
{
    let seconds = mile_pace_seconds(pace);
    lemma_round_div_nearest(pace * 1_000_000, 621_371);
    assert(mile_pace_seconds(2236) == 3598);
    assert(mile_pace_seconds(2237) == 3600);
    if pace <= 2236 {
        lemma_round_div_increasing(pace * 1_000_000, 2236int * 1_000_000, 621_371);
    } else {
        lemma_round_div_increasing(2237int * 1_000_000, pace * 1_000_000, 621_371);
    }
    lemma_zero_hour_clock((seconds / 60) as nat, (seconds % 60) as nat);
}

/// The speed in kilometres per hour is `3600 / pace` to three decimals: no
/// number of thousandths is nearer.
pub proof fn lemma_km_per_hour_nearest(pace: int)
    requires
        1 <= pace,
    ensures
        0 <= kph_thousandths(pace),
        is_nearest(kph_thousandths(pace), 1000 * 3600int, pace),
{
    lemma_round_div_nearest(1000 * 3600int, pace);
}

/// A slower pace never gives a higher speed in kilometres per hour.
pub proof fn lemma_km_per_hour_decreasing(faster: int, slower: int)
    requires
        1 <= faster <= slower,
    ensures
        kph_thousandths(slower) <= kph_thousandths(faster),
{
    lemma_round_div_decreasing(1000 * 3600int, faster, slower);
}

/// The speed in miles per hour is the speed in kilometres per hour times
/// 0.621371, to three decimals: it is the nearest number of thousandths to
/// the exact product `3600 / pace * 0.621371`, and it differs from the
/// written kilometres per hour times 0.621371 by less than a thousandth.
pub proof fn lemma_miles_per_hour_from_km_per_hour(pace: int)
    requires
        1 <= pace,
    ensures
        0 <= mph_thousandths(pace),
        is_nearest(mph_thousandths(pace), 3600int * 621_371, 1000 * pace),
        -1_000_000 < mph_thousandths(pace) * 1_000_000 - kph_thousandths(pace) * 621_371
            < 1_000_000,
{
    let k = kph_thousandths(pace);
    let m = mph_thousandths(pace);
    lemma_round_div_nearest(1000 * 3600int, pace);
    lemma_round_div_nearest(3600int * 621_371, 1000 * pace);
    let kp = k * pace;
    let mp = m * pace;
    assert(m * (1000 * pace) == 1000 * mp) by (nonlinear_arith)
        requires
            mp == m * pace,
    ;
    // -pace <= 2 * (3_600_000 - kp) < pace and
    // -1000 * pace <= 2 * (3600 * 621_371 - 1000 * mp) < 1000 * pace.
    assert(-1_621_371 * pace < 2 * (1_000_000 * mp - 621_371 * kp) < 1_621_371 * pace);
    let x = m * 1_000_000 - k * 621_371;
    assert(x * pace == 1_000_000 * mp - 621_371 * kp) by (nonlinear_arith)
        requires
            x == m * 1_000_000 - k * 621_371,
            mp == m * pace,
            kp == k * pace,
    ;
    assert(-1_000_000 < x < 1_000_000) by (nonlinear_arith)
        requires
            pace >= 1,
            -1_621_371 * pace < 2 * (x * pace) < 1_621_371 * pace,
    ;
}

/// A slower pace or a longer distance never gives a shorter estimate.
pub proof fn lemma_distance_estimate_increasing(
    pace: int,
    distance_cm: int,
    slower: int,
    longer_cm: int,
)
    requires
        0 <= pace <= slower,
        0 <= distance_cm <= longer_cm,
    ensures
        estimate_seconds(pace, distance_cm) <= estimate_seconds(slower, longer_cm),
{
    lemma_mul_upper_bound(distance_cm, longer_cm, pace, slower);
    lemma_round_div_increasing(distance_cm * pace, longer_cm * slower, 100_000);
}

/// One kilometre takes the pace: the estimate for a kilometre is the pace in
/// seconds, and below an hour per kilometre it is written as the pace is.
pub proof fn lemma_one_kilometre_takes_the_pace(pace: int)
    requires
        1 <= pace,
    ensures
        estimate_seconds(pace, 100_000) == pace,
        pace < 3600 ==> distance_estimate_text(pace, 100_000) == km_pace_text(pace),
{
    assert(is_nearest(pace, 100_000 * pace, 100_000));
    lemma_nearest_is_round_div(pace, 100_000 * pace, 100_000);
}

/// An estimate is always written as a well-formed duration, whatever the
/// pace and the distance.
pub proof fn lemma_distance_estimate_is_duration(pace: int, distance_cm: int)
    requires
        1 <= pace,
        0 <= distance_cm,
    ensures
        is_duration_text(distance_estimate_text(pace, distance_cm)),
{
    let t = estimate_seconds(pace, distance_cm);
    assert(0 <= distance_cm * pace) by (nonlinear_arith)
        requires
            1 <= pace,
            0 <= distance_cm,
    ;
    lemma_round_div_nearest(distance_cm * pace, 100_000);
    lemma_clock_text_shape((t / 3600) as nat, ((t / 60) % 60) as nat, (t % 60) as nat);
}

} // verus!
