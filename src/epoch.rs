use vstd::prelude::*;

verus! {

/// Number of low bits of an epoch that hold a sequence number; the bits
/// above them hold a physical time in milliseconds.
pub const EPOCH_PHYSICAL_SHIFT_BITS: u64 = 16;

/// Largest physical time an epoch can hold.
pub const MAX_PHYSICAL_TIME: u64 = 0xffff_ffff_ffff;

/// Milliseconds from the Unix epoch to the start of epoch time
/// (2021-01-01T00:00:00Z).
pub const EPOCH_BASE_UNIX_MILLIS: u64 = 1_609_459_200_000;

/// A logical timestamp attached to every barrier.
#[derive(Debug, Clone, Copy, PartialEq, Eq, Structural)]
pub struct Epoch(pub u64);

/// The epoch `next` gives after `e` when the clock reads `now`.
pub open spec fn next_epoch_spec(e: u64, now: u64) -> u64 {
    if now > e / 0x10000 {
        (now * 0x10000) as u64
    } else {
        (e + 1) as u64
    }
}

/// Relies on `std::time::SystemTime::now`: the wall-clock time in
/// milliseconds since the Unix epoch, `None` when the clock reads earlier.
#[verifier::external_body]
fn unix_millis_now() -> (r: Option<u128>) {
    std::time::SystemTime::now().duration_since(std::time::UNIX_EPOCH).ok().map(|d| d.as_millis())
}

/// Milliseconds of epoch time at Unix time `unix_millis`, clamped to what
/// an epoch can hold.
pub fn physical_time_of(unix_millis: Option<u128>) -> (r: u64)
    ensures
        r <= MAX_PHYSICAL_TIME,
        unix_millis is Some && EPOCH_BASE_UNIX_MILLIS <= unix_millis->Some_0
            <= EPOCH_BASE_UNIX_MILLIS + MAX_PHYSICAL_TIME ==> r == unix_millis->Some_0
            - EPOCH_BASE_UNIX_MILLIS,
        unix_millis is Some && unix_millis->Some_0 > EPOCH_BASE_UNIX_MILLIS + MAX_PHYSICAL_TIME
            ==> r == MAX_PHYSICAL_TIME,
        (unix_millis is None || unix_millis->Some_0 < EPOCH_BASE_UNIX_MILLIS) ==> r == 0,
{
    match unix_millis {
        Some(ms) => {
            if ms < EPOCH_BASE_UNIX_MILLIS as u128 {
                0
            } else if ms - (EPOCH_BASE_UNIX_MILLIS as u128) > MAX_PHYSICAL_TIME as u128 {
                MAX_PHYSICAL_TIME
            } else {
                (ms - (EPOCH_BASE_UNIX_MILLIS as u128)) as u64
            }
        },
        None => 0,
    }
}

impl Epoch {
    /// The physical time part.
    pub fn physical_time(&self) -> (r: u64)
        ensures
            r == self.0 / 0x10000,
    {
        let e = self.0;
        assert(e >> 16u64 == e / 0x10000) by (bit_vector);
        e >> EPOCH_PHYSICAL_SHIFT_BITS
    }

    /// The first epoch of physical time `time`.
    pub fn from_physical_time(time: u64) -> (r: Epoch)
        requires
            time <= MAX_PHYSICAL_TIME,
        ensures
            r.0 == time * 0x10000,
    {
        proof {
            assert(time <= 0xffff_ffff_ffffu64 ==> time << 16u64 == time * 0x10000) by (bit_vector);
        }
        Epoch(time << EPOCH_PHYSICAL_SHIFT_BITS)
    }

    /// The epoch after this one when the clock reads `now`: the first epoch
    /// of `now` when the clock is ahead, else this epoch plus one.
    pub fn next_at(self, now: u64) -> (r: Epoch)
        requires
            self.0 < u64::MAX,
            now <= MAX_PHYSICAL_TIME,
        ensures
            r.0 == next_epoch_spec(self.0, now),
            r.0 > self.0,
    {
        let physical = self.physical_time();
        if now > physical {
            proof {
                assert(self.0 < (self.0 / 0x10000 + 1) * 0x10000) by (nonlinear_arith);
                assert((self.0 / 0x10000 + 1) * 0x10000 <= now * 0x10000) by (nonlinear_arith)
                    requires
                        now > self.0 / 0x10000,
                ;
            }
            Epoch::from_physical_time(now)
        } else {
            Epoch(self.0 + 1)
        }
    }

    /// The epoch after this one, by the wall clock; always greater.
    pub fn next(self) -> (r: Epoch)
        requires
            self.0 < u64::MAX,
        ensures
            r.0 > self.0,
    {
        let now = physical_time_of(unix_millis_now());
        self.next_at(now)
    }
}

} // verus!
