//! The values that the queue takes from its surroundings: the time and random numbers.
use vstd::prelude::*;

verus! {

/// Relies on `time::OffsetDateTime::now_utc` and `unix_timestamp_nanos`: the current time in
/// nanoseconds since the Unix epoch. Nothing is promised of its value.
#[verifier::external_body]
fn utc_now_nanos() -> (r: i128) {
    time::OffsetDateTime::now_utc().unix_timestamp_nanos()
}

/// Relies on `uuid::Uuid::new_v4` and `Uuid::as_u128`: a random version-4 UUID as a number.
/// `new_v4` masks random bits so that the version nibble is 4 and the variant bits are `10`;
/// nothing else is promised of the value.
#[verifier::external_body]
fn random_uuid_bits() -> (r: u128)
    ensures
        is_v4_uuid(r),
{
    uuid::Uuid::new_v4().as_u128()
}

/// `n / 1_000_000` rounded toward minus infinity, cut to the range of `i64`.
pub open spec fn millis_of_nanos(n: int) -> int {
    let m = n / 1_000_000;
    if m > i64::MAX {
        i64::MAX as int
    } else if m < i64::MIN {
        i64::MIN as int
    } else {
        m
    }
}

/// Converts nanoseconds since the epoch to whole milliseconds, rounding toward the past.
pub fn nanos_to_millis(n: i128) -> (r: i64)
    ensures
        r == millis_of_nanos(n as int),
{
    let m: i128 = if n >= 0 {
        n / 1_000_000
    } else {
        let p: i128 = -(n + 1);
        assert(p / 1_000_000 >= 0);
        let q: i128 = p / 1_000_000;
        assert(-q - 1 == (n as int) / 1_000_000) by (nonlinear_arith)
            requires
                p == -(n + 1),
                q == p / 1_000_000,
                n < 0,
        ;
        -q - 1
    };
    if m > i64::MAX as i128 {
        i64::MAX
    } else if m < i64::MIN as i128 {
        i64::MIN
    } else {
        m as i64
    }
}

/// Where the queue reads the time: the system clock, or a clock that only moves when told,
/// for tests and simulations. Instants are milliseconds since the Unix epoch.
#[derive(Clone, Copy, Debug, PartialEq, Eq, Structural)]
pub enum Clock {
    System,
    Manual(i64),
}

impl Clock {
    /// The current instant. A manual clock gives the instant it was set to.
    pub fn now(&self) -> (r: i64)
        ensures
            self matches Clock::Manual(t) ==> r == t,
    {
        match self {
            Clock::System => nanos_to_millis(utc_now_nanos()),
            Clock::Manual(t) => *t,
        }
    }

    /// Moves a manual clock `d` milliseconds forward, stopping at the largest instant.
    /// The system clock is left as it is.
    pub fn advance(&mut self, d: u64)
        ensures
            match *old(self) {
                Clock::System => *final(self) == Clock::System,
                Clock::Manual(t) => *final(self) == Clock::Manual(crate::job::later(t, d)),
            },
    {
        match self {
            Clock::System => {},
            Clock::Manual(t) => {
                *t = crate::job::add_duration(*t, d);
            },
        }
    }
}

/// Whether `id` has the version and variant bits of a random (version 4) UUID.
pub open spec fn is_v4_uuid(id: u128) -> bool {
    (id >> 76u128) & 0xfu128 == 4u128 && (id >> 62u128) & 3u128 == 2u128
}

/// A fresh random external id for a job: a version-4 UUID.
pub fn new_external_id() -> (r: u128)
    ensures
        is_v4_uuid(r),
{
    random_uuid_bits()
}

/// The draw in `0..=1000` that the random bits `bits` give: their low 48 bits, which a
/// version-4 UUID leaves random, modulo 1001.
pub open spec fn draw_of_bits(bits: u128) -> u32 {
    ((bits & 0xffff_ffff_ffffu128) % 1001) as u32
}

/// Computes `draw_of_bits(bits)`.
pub fn draw_from_bits(bits: u128) -> (r: u32)
    ensures
        r == draw_of_bits(bits),
        r <= 1000,
{
    ((bits & 0xffff_ffff_ffff) % 1001) as u32
}

/// A random draw in `0..=1000`, which picks how much of a retry's randomization is used.
pub fn random_draw() -> (r: u32)
    ensures
        r <= 1000,
{
    draw_from_bits(random_uuid_bits())
}

} // verus!
