//! Snowflake identifiers: 63-bit numbers that pack a timestamp, the number of
//! the machine that made them and a sequence number, and the generator that
//! hands them out.

use crate::time;
use vstd::prelude::*;

verus! {

/// One more than the largest timestamp that fits the 42 bits of an identifier.
pub const TIMESTAMP_LIMIT: u64 = 0x400_0000_0000;

/// One more than the largest machine id: the field has 10 bits.
pub const MACHINE_ID_LIMIT: u16 = 1024;

/// One more than the largest sequence number: the field has 11 bits.
pub const SEQUENCE_LIMIT: u16 = 2048;

/// A snowflake identifier, held as its three fields.
///
/// The number it stands for has the timestamp (milliseconds since
/// 2023-01-01T00:00:00Z) in bits 62 to 21, the machine id in bits 20 to 11 and
/// the sequence number in bits 10 to 0.
///
/// Two identifiers are equal when their numbers are, and they are ordered by
/// their timestamps alone. They are hashed by their fields, which for
/// identifiers in range comes to the same as hashing their numbers.
#[derive(Debug, Clone, Copy, Eq, Hash)]
pub struct Snowflake {
    pub timestamp: u64,
    pub machine_id: u16,
    pub increment: u16,
}

impl Snowflake {
    /// Each field fits the bits that the number has for it.
    pub open spec fn in_range(self) -> bool {
        &&& self.timestamp < TIMESTAMP_LIMIT
        &&& self.machine_id < MACHINE_ID_LIMIT
        &&& self.increment < SEQUENCE_LIMIT
    }

    /// The number that the three fields pack into. Fields that are out of
    /// range spill into the bits of their neighbours.
    pub open spec fn packed(self) -> i64 {
        ((self.timestamp as i64) << 21) | ((self.machine_id as i64) << 11) | (self.increment as i64)
    }

    /// The identifier whose fields are the three bit ranges of `number`.
    pub open spec fn unpacked(number: u64) -> Snowflake {
        Snowflake {
            timestamp: number / 0x20_0000,
            machine_id: ((number / 2048) % 1024) as u16,
            increment: (number % 2048) as u16,
        }
    }

    /// Creates a [`Snowflake`] from a number.
    pub fn from_number(number: u64) -> (r: Self)
        ensures
            r == Self::unpacked(number),
    {
        assert(number >> 21 == number / 0x20_0000) by (bit_vector);
        assert((number >> 11) & 0b11_1111_1111 == (number / 2048) % 1024) by (bit_vector);
        assert(number & 0b111_1111_1111 == number % 2048) by (bit_vector);
        Self {
            timestamp: number >> 21,
            machine_id: ((number >> 11) & 0b11_1111_1111) as u16,
            increment: (number & 0b111_1111_1111) as u16,
        }
    }

    /// Returns the snowflake as an i64.
    pub fn into_number(&self) -> (r: i64)
        ensures
            r == self.packed(),
            self.in_range() ==> r == self.timestamp * 0x20_0000 + self.machine_id * 2048
                + self.increment,
    {
        proof {
            if self.in_range() {
                lemma_packed_is_sum(*self);
            }
        }
        ((self.timestamp as i64) << 21) | ((self.machine_id as i64) << 11) | (self.increment as i64)
    }

    /// Returns the timestamp of the snowflake as a point in time, or `None`
    /// when it lies beyond what 64 bits of milliseconds since 1970, or the
    /// machine's clock type, can hold.
    pub fn timestamp(&self) -> (r: Option<std::time::SystemTime>)
        ensures
            time::unix_millis(self.timestamp) > u64::MAX ==> r is None,
    {
        time::into_systime(self.timestamp)
    }
}

impl PartialEq for Snowflake {
    /// Two snowflakes are equal when their numbers are.
    fn eq(&self, other: &Self) -> (r: bool) {
        self.into_number() == other.into_number()
    }
}

impl vstd::std_specs::cmp::PartialEqSpecImpl for Snowflake {
    open spec fn obeys_eq_spec() -> bool {
        true
    }

    open spec fn eq_spec(&self, other: &Self) -> bool {
        self.packed() == other.packed()
    }
}

impl PartialOrd for Snowflake {
    /// Snowflakes are ordered by their timestamps alone.
    fn partial_cmp(&self, other: &Self) -> (r: Option<std::cmp::Ordering>) {
        self.timestamp.partial_cmp(&other.timestamp)
    }
}

impl vstd::std_specs::cmp::PartialOrdSpecImpl for Snowflake {
    open spec fn obeys_partial_cmp_spec() -> bool {
        true
    }

    open spec fn partial_cmp_spec(&self, other: &Self) -> Option<std::cmp::Ordering> {
        if self.timestamp < other.timestamp {
            Some(std::cmp::Ordering::Less)
        } else if self.timestamp == other.timestamp {
            Some(std::cmp::Ordering::Equal)
        } else {
            Some(std::cmp::Ordering::Greater)
        }
    }
}

impl From<u64> for Snowflake {
    fn from(number: u64) -> (r: Self) {
        Self::from_number(number)
    }
}

impl vstd::std_specs::convert::FromSpecImpl<u64> for Snowflake {
    open spec fn obeys_from_spec() -> bool {
        true
    }

    open spec fn from_spec(number: u64) -> Self {
        Snowflake::unpacked(number)
    }
}

impl From<i64> for Snowflake {
    fn from(number: i64) -> (r: Self) {
        Self::from_number(number as u64)
    }
}

impl vstd::std_specs::convert::FromSpecImpl<i64> for Snowflake {
    open spec fn obeys_from_spec() -> bool {
        true
    }

    open spec fn from_spec(number: i64) -> Self {
        Snowflake::unpacked(number as u64)
    }
}

impl From<Snowflake> for i64 {
    fn from(snowflake: Snowflake) -> (r: Self) {
        snowflake.into_number()
    }
}

impl vstd::std_specs::convert::FromSpecImpl<Snowflake> for i64 {
    open spec fn obeys_from_spec() -> bool {
        true
    }

    open spec fn from_spec(snowflake: Snowflake) -> Self {
        snowflake.packed()
    }
}

impl From<Snowflake> for u64 {
    fn from(snowflake: Snowflake) -> (r: Self) {
        snowflake.into_number() as u64
    }
}

impl vstd::std_specs::convert::FromSpecImpl<Snowflake> for u64 {
    open spec fn obeys_from_spec() -> bool {
        true
    }

    open spec fn from_spec(snowflake: Snowflake) -> Self {
        snowflake.packed() as u64
    }
}

/// In range, packing is plain positional arithmetic and the number is not
/// negative.
pub proof fn lemma_packed_is_sum(s: Snowflake)
    requires
        s.in_range(),
    ensures
        s.packed() == s.timestamp * 0x20_0000 + s.machine_id * 2048 + s.increment,
        0 <= s.packed(),
{
    let t = s.timestamp;
    let m = s.machine_id;
    let i = s.increment;
    assert(((t as i64) << 21) | ((m as i64) << 11) | (i as i64) == t * 0x20_0000 + m * 2048 + i)
        by (bit_vector)
        requires
            t < 0x400_0000_0000,
            m < 1024,
            i < 2048,
    ;
}

/// Unpacking the number of an identifier whose fields are in range gives the
/// identifier back.
pub proof fn lemma_unpack_pack(s: Snowflake)
    requires
        s.in_range(),
    ensures
        Snowflake::unpacked(s.packed() as u64) == s,
{
    lemma_packed_is_sum(s);
    let n = s.packed() as u64;
    let t = s.timestamp;
    let m = s.machine_id;
    let i = s.increment;
    assert(n == t * 0x20_0000 + m * 2048 + i);
    assert(n / 0x20_0000 == t && (n / 2048) % 1024 == m && n % 2048 == i) by (nonlinear_arith)
        requires
            n == t * 0x20_0000 + m * 2048 + i,
            m < 1024,
            i < 2048,
    ;
}

/// Packing the fields of a number below 2^63 gives the number back, and those
/// fields are in range.
pub proof fn lemma_pack_unpack(number: u64)
    requires
        number < 0x8000_0000_0000_0000,
    ensures
        Snowflake::unpacked(number).in_range(),
        Snowflake::unpacked(number).packed() == number,
{
    let s = Snowflake::unpacked(number);
    assert(number / 0x20_0000 < 0x400_0000_0000 && number == (number / 0x20_0000) * 0x20_0000 + ((
    number / 2048) % 1024) * 2048 + number % 2048) by (nonlinear_arith)
        requires
            number < 0x8000_0000_0000_0000,
    ;
    lemma_packed_is_sum(s);
}

/// Two identifiers in range have the same number only if they are the same.
pub proof fn lemma_packed_injective(a: Snowflake, b: Snowflake)
    requires
        a.in_range(),
        b.in_range(),
        a.packed() == b.packed(),
    ensures
        a == b,
{
    lemma_unpack_pack(a);
    lemma_unpack_pack(b);
}

/// What a generator remembers between two calls.
pub struct GeneratorState {
    /// The clock reading of the latest call.
    pub last_timestamp: nat,
    /// The machine id that every identifier carries.
    pub machine_id: nat,
    /// The sequence number handed out last, 0 when none was since the last
    /// reset.
    pub sequence: nat,
    /// How many milliseconds ahead of the clock the generator stamps its
    /// identifiers: one for every run of sequence numbers that was used up
    /// and not yet paid back by the clock moving on.
    pub debt: nat,
}

impl GeneratorState {
    /// The machine id and the sequence number fit their fields.
    pub open spec fn wf(self) -> bool {
        &&& self.machine_id < MACHINE_ID_LIMIT
        &&& self.sequence < SEQUENCE_LIMIT
    }

    /// The state once the clock reading `now` is taken in. A reading that
    /// differs from the last one pays back one millisecond of debt, and with
    /// no debt left the sequence starts over.
    pub open spec fn observe(self, now: nat) -> GeneratorState {
        if now == self.last_timestamp {
            self
        } else {
            let debt: nat = if self.debt > 0 {
                (self.debt - 1) as nat
            } else {
                0
            };
            GeneratorState {
                last_timestamp: now,
                machine_id: self.machine_id,
                sequence: if debt == 0 {
                    0
                } else {
                    self.sequence
                },
                debt,
            }
        }
    }

    /// The timestamp that a call at clock reading `now` stamps: the reading
    /// plus the debt that is left.
    pub open spec fn stamp(self, now: nat) -> nat {
        now + self.observe(now).debt
    }

    /// A call at clock reading `now` uses up the last sequence number of its
    /// millisecond.
    pub open spec fn exhausts(self, now: nat) -> bool {
        self.observe(now).sequence + 1 == SEQUENCE_LIMIT
    }

    /// The state that a call at clock reading `now` leaves.
    pub open spec fn next(self, now: nat) -> GeneratorState {
        let seen = self.observe(now);
        if self.exhausts(now) {
            GeneratorState { sequence: 0, debt: seen.debt + 1, ..seen }
        } else {
            GeneratorState { sequence: seen.sequence + 1, ..seen }
        }
    }

    /// The identifier that a call at clock reading `now` returns. The call
    /// that exhausts a millisecond returns sequence number 0 under the
    /// timestamp of that millisecond; the calls after it are stamped one
    /// millisecond later.
    pub open spec fn issued(self, now: nat) -> Snowflake {
        Snowflake {
            timestamp: self.stamp(now) as u64,
            machine_id: self.machine_id as u16,
            increment: self.next(now).sequence as u16,
        }
    }

    /// A call at clock reading `now` can be served: the timestamp that it
    /// stamps fits its 42 bits, and the debt stays within 16 bits.
    pub open spec fn admits(self, now: nat) -> bool {
        &&& self.stamp(now) < TIMESTAMP_LIMIT
        &&& self.next(now).debt <= u16::MAX
    }
}

/// A snowflake ID generator.
///
/// Each identifier is made of the clock reading in milliseconds since
/// 2023-01-01T00:00:00Z, the generator's machine id, and a sequence number
/// that tells apart the identifiers of one millisecond. When a millisecond
/// runs out of sequence numbers the generator goes on with the next
/// millisecond ahead of the clock, and keeps count of how far ahead it is.
///
/// A generator is not to be shared without a lock: one call changes several
/// fields.
pub struct SnowflakeGenerator {
    last_timestamp: u64,
    machine_id: u16,
    increment: u16,
    increment_overflow: u16,
}

impl View for SnowflakeGenerator {
    type V = GeneratorState;

    closed spec fn view(&self) -> GeneratorState {
        GeneratorState {
            last_timestamp: self.last_timestamp as nat,
            machine_id: self.machine_id as nat,
            sequence: self.increment as nat,
            debt: self.increment_overflow as nat,
        }
    }
}

impl SnowflakeGenerator {
    /// The generator's invariant.
    pub open spec fn wf(&self) -> bool {
        &&& self@.wf()
        &&& self@.last_timestamp <= u64::MAX
        &&& self@.debt <= u16::MAX
    }

    /// Creates a new snowflake generator. A machine id of 1024 or more is not
    /// accepted.
    pub fn new(machine_id: u16) -> (r: Self)
        requires
            machine_id < MACHINE_ID_LIMIT,
        ensures
            r.wf(),
            r@ == (GeneratorState {
                last_timestamp: 0,
                machine_id: machine_id as nat,
                sequence: 0,
                debt: 0,
            }),
    {
        Self { last_timestamp: 0, machine_id, increment: 0, increment_overflow: 0 }
    }

    /// The machine id that every identifier of this generator carries.
    pub fn machine_id(&self) -> (r: u16)
        ensures
            r == self@.machine_id,
    {
        self.machine_id
    }

    /// The clock reading of the latest call.
    pub fn last_timestamp(&self) -> (r: u64)
        ensures
            r == self@.last_timestamp,
    {
        self.last_timestamp
    }

    /// The sequence number handed out last.
    pub fn sequence(&self) -> (r: u16)
        ensures
            r == self@.sequence,
    {
        self.increment
    }

    /// How many milliseconds ahead of the clock the generator is.
    pub fn debt(&self) -> (r: u16)
        ensures
            r == self@.debt,
    {
        self.increment_overflow
    }

    /// Generates the identifier for a call made when the clock reads `now`
    /// milliseconds since 2023-01-01T00:00:00Z.
    ///
    /// Returns `None`, and changes nothing, when the reading is negative, the
    /// timestamp to stamp would no longer fit its 42 bits, or the debt would
    /// no longer fit its 16 bits. Every identifier that is returned has its
    /// fields in range.
    pub fn generate_at(&mut self, now: i64) -> (r: Option<Snowflake>)
        requires
            old(self).wf(),
        ensures
            final(self).wf(),
            r is Some <==> now >= 0 && old(self)@.admits(now as nat),
            r is Some ==> r.unwrap().in_range(),
            r is Some ==> final(self)@ == old(self)@.next(now as nat) && r.unwrap() == old(
                self,
            )@.issued(now as nat),
            r is None ==> final(self)@ == old(self)@,
    {
        if now < 0 {
            return None;
        }
        let clock = now as u64;
        let mut debt = self.increment_overflow;
        let mut sequence = self.increment;
        if clock != self.last_timestamp {
            if debt > 0 {
                debt = debt - 1;
            }
            if debt == 0 {
                sequence = 0;
            }
        }
        let timestamp = clock + debt as u64;
        if timestamp >= TIMESTAMP_LIMIT {
            return None;
        }
        sequence = sequence + 1;
        if sequence == SEQUENCE_LIMIT {
            if debt == u16::MAX {
                return None;
            }
            debt = debt + 1;
            sequence = 0;
        }
        self.last_timestamp = clock;
        self.increment = sequence;
        self.increment_overflow = debt;
        Some(Snowflake { timestamp, machine_id: self.machine_id, increment: sequence })
    }

    /// Generates a new snowflake ID from the current time.
    ///
    /// Returns `None`, and changes nothing, when the clock is set before
    /// 2023 or so far ahead that the timestamp would no longer fit its 42
    /// bits, or when the debt would no longer fit its 16 bits.
    pub fn generate(&mut self) -> (r: Option<Snowflake>)
        requires
            old(self).wf(),
        ensures
            final(self).wf(),
            match r {
                Some(id) => id.in_range() && exists|now: nat|
                    {
                        &&& old(self)@.admits(now)
                        &&& final(self)@ == old(self)@.next(now)
                        &&& id == old(self)@.issued(now)
                    },
                None => final(self)@ == old(self)@,
            },
    {
        let now = time::now();
        let r = self.generate_at(now);
        proof {
            if r is Some {
                let t = now as nat;
                assert(old(self)@.admits(t) && self@ == old(self)@.next(t) && r.unwrap() == old(
                    self,
                )@.issued(t));
            }
        }
        r
    }
}

} // verus!
