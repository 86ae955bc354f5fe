//! Units of bytes and of time, and the choice of the unit that suits a value.

use vstd::prelude::*;
use vstd::arithmetic::div_mod::*;

verus! {

/// Bytes in a byte.
pub const BYTE: u128 = 1;

/// Bytes in a kibibyte.
pub const KIBIBYTE: u128 = 1024;

/// Bytes in a mebibyte.
pub const MEBIBYTE: u128 = 1024 * KIBIBYTE;

/// Bytes in a gibibyte.
pub const GIBIBYTE: u128 = 1024 * MEBIBYTE;

/// Bytes in a tebibyte.
pub const TEBIBYTE: u128 = 1024 * GIBIBYTE;

/// Bytes in a pebibyte.
pub const PEBIBYTE: u128 = 1024 * TEBIBYTE;

/// Seconds in a second.
pub const SECOND: u128 = 1;

/// Seconds in a minute.
pub const MINUTE: u128 = 60;

/// Seconds in an hour.
pub const HOUR: u128 = 60 * MINUTE;

/// Seconds in a day.
pub const DAY: u128 = 24 * HOUR;

/// Seconds in a week.
pub const WEEK: u128 = 7 * DAY;

/// Seconds in a year of 52 weeks.
pub const YEAR: u128 = 52 * WEEK;

/// Seconds in ten years.
pub const DECADE: u128 = 10 * YEAR;

/// A unit in which a value is shown.
#[derive(Clone, Copy, Debug, PartialEq, Eq, Structural)]
pub enum Unit {
    /// B
    BYTE,
    /// KiB
    KIBIBYTE,
    /// MiB
    MEBIBYTE,
    /// GiB
    GIBIBYTE,
    /// TiB
    TEBIBYTE,
    /// PiB
    PEBIBYTE,
    /// %
    Percentage,
    /// s
    SECOND,
    /// min
    MINUTE,
    /// hour
    HOUR,
    /// day
    DAY,
    /// week
    WEEK,
    /// year
    YEAR,
    /// decade
    DECADE,
}

impl Unit {
    /// How many of the base unit (bytes, seconds) make one of this unit; a
    /// hundred for the percentage.
    pub open spec fn value(self) -> nat {
        match self {
            Unit::BYTE => 1,
            Unit::KIBIBYTE => 1024,
            Unit::MEBIBYTE => 1024 * 1024,
            Unit::GIBIBYTE => 1024 * 1024 * 1024,
            Unit::TEBIBYTE => 1024 * 1024 * 1024 * 1024,
            Unit::PEBIBYTE => 1024 * 1024 * 1024 * 1024 * 1024,
            Unit::Percentage => 100,
            Unit::SECOND => 1,
            Unit::MINUTE => 60,
            Unit::HOUR => 3_600,
            Unit::DAY => 86_400,
            Unit::WEEK => 604_800,
            Unit::YEAR => 31_449_600,
            Unit::DECADE => 314_496_000,
        }
    }

    /// The next coarser unit of the same kind; the coarsest of a kind, and
    /// the percentage, are followed by themselves.
    pub open spec fn following(self) -> Unit {
        match self {
            Unit::BYTE => Unit::KIBIBYTE,
            Unit::KIBIBYTE => Unit::MEBIBYTE,
            Unit::MEBIBYTE => Unit::GIBIBYTE,
            Unit::GIBIBYTE => Unit::TEBIBYTE,
            Unit::TEBIBYTE => Unit::PEBIBYTE,
            Unit::PEBIBYTE => Unit::PEBIBYTE,
            Unit::Percentage => Unit::Percentage,
            Unit::SECOND => Unit::MINUTE,
            Unit::MINUTE => Unit::HOUR,
            Unit::HOUR => Unit::DAY,
            Unit::DAY => Unit::WEEK,
            Unit::WEEK => Unit::YEAR,
            Unit::YEAR => Unit::DECADE,
            Unit::DECADE => Unit::DECADE,
        }
    }

    /// How many units of the same kind are coarser than this one.
    pub open spec fn coarser(self) -> nat {
        match self {
            Unit::BYTE => 5,
            Unit::KIBIBYTE => 4,
            Unit::MEBIBYTE => 3,
            Unit::GIBIBYTE => 2,
            Unit::TEBIBYTE => 1,
            Unit::PEBIBYTE => 0,
            Unit::Percentage => 0,
            Unit::SECOND => 6,
            Unit::MINUTE => 5,
            Unit::HOUR => 4,
            Unit::DAY => 3,
            Unit::WEEK => 2,
            Unit::YEAR => 1,
            Unit::DECADE => 0,
        }
    }

    /// This unit after `steps` steps to the next coarser one.
    pub open spec fn advanced(self, steps: nat) -> Unit
        decreases steps,
    {
        if steps == 0 {
            self
        } else {
            self.following().advanced((steps - 1) as nat)
        }
    }

    /// The unit's size in the base unit of its kind.
    pub fn to_uint(&self) -> (size: u128)
        ensures
            size == self.value(),
    {
        match self {
            Unit::BYTE => BYTE,
            Unit::KIBIBYTE => KIBIBYTE,
            Unit::MEBIBYTE => MEBIBYTE,
            Unit::GIBIBYTE => GIBIBYTE,
            Unit::TEBIBYTE => TEBIBYTE,
            Unit::PEBIBYTE => PEBIBYTE,
            Unit::Percentage => 100,
            Unit::SECOND => SECOND,
            Unit::MINUTE => MINUTE,
            Unit::HOUR => HOUR,
            Unit::DAY => DAY,
            Unit::WEEK => WEEK,
            Unit::YEAR => YEAR,
            Unit::DECADE => DECADE,
        }
    }

    /// The next coarser unit.
    pub fn next(&self) -> (unit: Unit)
        ensures
            unit == self.following(),
    {
        match self {
            Unit::BYTE => Unit::KIBIBYTE,
            Unit::KIBIBYTE => Unit::MEBIBYTE,
            Unit::MEBIBYTE => Unit::GIBIBYTE,
            Unit::GIBIBYTE => Unit::TEBIBYTE,
            Unit::TEBIBYTE => Unit::PEBIBYTE,
            Unit::PEBIBYTE => Unit::PEBIBYTE,
            Unit::Percentage => Unit::Percentage,
            Unit::SECOND => Unit::MINUTE,
            Unit::MINUTE => Unit::HOUR,
            Unit::HOUR => Unit::DAY,
            Unit::DAY => Unit::WEEK,
            Unit::WEEK => Unit::YEAR,
            Unit::YEAR => Unit::DECADE,
            Unit::DECADE => Unit::DECADE,
        }
    }

    /// The unit's symbol.
    pub open spec fn symbol(self) -> Seq<char> {
        match self {
            Unit::BYTE => "B"@,
            Unit::KIBIBYTE => "KiB"@,
            Unit::MEBIBYTE => "MiB"@,
            Unit::GIBIBYTE => "GiB"@,
            Unit::TEBIBYTE => "TiB"@,
            Unit::PEBIBYTE => "PiB"@,
            Unit::Percentage => "%"@,
            Unit::SECOND => "s"@,
            Unit::MINUTE => "minutes"@,
            Unit::HOUR => "hours"@,
            Unit::DAY => "days"@,
            Unit::WEEK => "weeks"@,
            Unit::YEAR => "years"@,
            Unit::DECADE => "decades"@,
        }
    }

    /// The unit's symbol, as it follows a value on an axis.
    pub fn to_str(&self) -> (text: &'static str)
        ensures
            text@ == self.symbol(),
    {
        match self {
            Unit::BYTE => "B",
            Unit::KIBIBYTE => "KiB",
            Unit::MEBIBYTE => "MiB",
            Unit::GIBIBYTE => "GiB",
            Unit::TEBIBYTE => "TiB",
            Unit::PEBIBYTE => "PiB",
            Unit::Percentage => "%",
            Unit::SECOND => "s",
            Unit::MINUTE => "minutes",
            Unit::HOUR => "hours",
            Unit::DAY => "days",
            Unit::WEEK => "weeks",
            Unit::YEAR => "years",
            Unit::DECADE => "decades",
        }
    }
}

/// The coarser of two units: the one that holds more of the base unit,
/// and the second where they hold as much.
pub fn coarser_of(first: Unit, second: Unit) -> (unit: Unit)
    ensures
        unit == if first.value() > second.value() {
            first
        } else {
            second
        },
{
    if first.to_uint() > second.to_uint() {
        first
    } else {
        second
    }
}

/// How often `bytes` can be divided by 1024 before it falls below 1024.
pub open spec fn kibi_steps(bytes: nat) -> nat
    decreases bytes,
{
    if bytes < 1024 {
        0
    } else {
        1 + kibi_steps(bytes / 1024)
    }
}

/// 1024 to the power of `steps`.
pub open spec fn kibi_power(steps: nat) -> nat
    decreases steps,
{
    if steps == 0 {
        1
    } else {
        1024 * kibi_power((steps - 1) as nat)
    }
}

/// The unit for `bytes` counted in `unit`: one step coarser for each time
/// that the count can be divided by 1024.
pub fn byte_unit(bytes: u64, unit: Unit) -> (chosen: Unit)
    ensures
        chosen == unit.advanced(kibi_steps(bytes as nat)),
{
    let mut rest: u64 = bytes;
    let mut chosen: Unit = unit;
    while rest >= 1024
        invariant
            chosen.advanced(kibi_steps(rest as nat)) == unit.advanced(kibi_steps(bytes as nat)),
        decreases rest,
    {
        rest = rest / 1024;
        chosen = chosen.next();
    }
    chosen
}

/// The unit for `bytes` counted in `unit`: one step coarser for each time
/// that the count can be divided by 1024.
pub fn get_byte_unit(bytes: usize, unit: Unit) -> (chosen: Unit)
    ensures
        chosen == unit.advanced(kibi_steps(bytes as nat)),
{
    byte_unit(bytes as u64, unit)
}

/// Starting from bytes, the chosen unit is the coarsest that does not
/// exceed the count, as far as the units reach: the count is at least one
/// of the unit and, below 1024 pebibytes, less than 1024 of it.
pub proof fn lemma_byte_unit_brackets(bytes: nat)
    requires
        bytes >= 1,
    ensures
        Unit::BYTE.advanced(kibi_steps(bytes)).value() <= bytes,
        bytes < 1024 * Unit::PEBIBYTE.value() ==> bytes < 1024 * Unit::BYTE.advanced(
            kibi_steps(bytes),
        ).value(),
{
    reveal_with_fuel(kibi_steps, 8);
    reveal_with_fuel(Unit::advanced, 8);
    if bytes >= 1024 * Unit::PEBIBYTE.value() {
        lemma_byte_chain_ends(bytes);
    }
}

/// From a pebibyte on, the chain of byte units stays at its end.
proof fn lemma_byte_chain_ends(bytes: nat)
    requires
        bytes >= Unit::PEBIBYTE.value(),
    ensures
        Unit::BYTE.advanced(kibi_steps(bytes)) == Unit::PEBIBYTE,
{
    reveal_with_fuel(kibi_steps, 6);
    reveal_with_fuel(Unit::advanced, 6);
    let rest = bytes / 1024 / 1024 / 1024 / 1024 / 1024;
    assert(kibi_steps(bytes) == 5 + kibi_steps(rest));
    lemma_stays_at_end(Unit::PEBIBYTE, kibi_steps(rest));
    lemma_advanced_adds(Unit::BYTE, 5, kibi_steps(rest));
}

/// A unit that follows itself is where every number of steps ends.
proof fn lemma_stays_at_end(unit: Unit, steps: nat)
    requires
        unit.following() == unit,
    ensures
        unit.advanced(steps) == unit,
    decreases steps,
{
    if steps > 0 {
        lemma_stays_at_end(unit, (steps - 1) as nat);
    }
}

/// Steps add up.
proof fn lemma_advanced_adds(unit: Unit, first: nat, second: nat)
    ensures
        unit.advanced(first + second) == unit.advanced(first).advanced(second),
    decreases first,
{
    if first > 0 {
        lemma_advanced_adds(unit.following(), (first - 1) as nat, second);
    }
}

/// The unit for `seconds`, starting at `unit`: the search moves to the
/// next coarser unit as long as there is one and `seconds` holds at least
/// one of it.
pub open spec fn time_unit(seconds: nat, unit: Unit) -> Unit
    decreases unit.coarser(),
{
    let next = unit.following();
    if next != unit && seconds >= next.value() {
        time_unit(seconds, next)
    } else {
        unit
    }
}

/// The unit in which `seconds` is shown, from `unit` upwards.
pub fn get_time_unit(seconds: u128, unit: Unit) -> (chosen: Unit)
    ensures
        chosen == time_unit(seconds as nat, unit),
{
    let mut chosen: Unit = unit;
    loop
        invariant
            time_unit(seconds as nat, chosen) == time_unit(seconds as nat, unit),
        ensures
            chosen == time_unit(seconds as nat, unit),
        decreases chosen.coarser(),
    {
        let next = chosen.next();
        if next != chosen && seconds >= next.to_uint() {
            chosen = next;
        } else {
            break;
        }
    }
    chosen
}

/// Starting from seconds, the chosen unit is the coarsest that `seconds`
/// holds at least one of, and the second where it holds none.
pub proof fn lemma_time_unit_brackets(seconds: nat)
    ensures
        ({
            let chosen = time_unit(seconds, Unit::SECOND);
            &&& chosen == Unit::SECOND || chosen.value() <= seconds
            &&& chosen == Unit::DECADE || seconds < chosen.following().value()
        }),
{
    reveal_with_fuel(time_unit, 8);
}

/// `value` in units of `unit_size`: the whole units, and the thousandths
/// of a unit that are left, both rounded down.
pub open spec fn in_units(value: nat, unit_size: nat) -> (nat, nat) {
    (value / unit_size, (value % unit_size) * 1000 / unit_size)
}

/// The powers of 1024 are positive, and `bytes` holds at least one of the
/// power that its steps reach.
proof fn lemma_kibi_power(bytes: nat)
    ensures
        kibi_power(kibi_steps(bytes)) >= 1,
        bytes >= 1 ==> kibi_power(kibi_steps(bytes)) <= bytes,
        bytes / kibi_power(kibi_steps(bytes)) < 1024,
    decreases bytes,
{
    if bytes >= 1024 {
        let rest = bytes / 1024;
        lemma_kibi_power(rest);
        let power = kibi_power(kibi_steps(rest));
        assert(kibi_power(kibi_steps(bytes)) == 1024 * power);
        lemma_fundamental_div_mod(bytes as int, 1024);
        assert(1024 * power <= bytes) by (nonlinear_arith)
            requires
                power <= rest,
                1024 * rest <= bytes,
        ;
        lemma_div_denominator(bytes as int, 1024, power as int);
    } else {
        assert(kibi_steps(bytes) == 0);
        assert(kibi_power(0) == 1);
    }
}

/// Splits `value` into whole units of `unit_size` and thousandths.
fn split(value: u128, unit_size: u128) -> (parts: (u128, u16))
    requires
        0 < unit_size <= 0x1_0000_0000_0000_0000,
    ensures
        (parts.0 as nat, parts.1 as nat) == in_units(value as nat, unit_size as nat),
{
    let whole: u128 = value / unit_size;
    let rest: u128 = value % unit_size;
    proof {
        lemma_mod_bound(value as int, unit_size as int);
        assert(rest * 1000 <= unit_size * 1000) by (nonlinear_arith)
            requires
                rest < unit_size,
        ;
        assert(unit_size * 1000 <= 0x1_0000_0000_0000_0000 * 1000) by (nonlinear_arith)
            requires
                unit_size <= 0x1_0000_0000_0000_0000,
        ;
        lemma_div_is_ordered((rest * 1000) as int, (unit_size * 1000 - 1) as int, unit_size as int);
        assert((unit_size * 1000 - 1) / (unit_size as int) < 1000) by {
            lemma_fundamental_div_mod_converse_div(
                (unit_size * 1000 - 1) as int,
                unit_size as int,
                999,
                unit_size - 1,
            );
        }
        lemma_div_pos_is_pos((rest * 1000) as int, unit_size as int);
    }
    let thousandths: u128 = (rest * 1000) / unit_size;
    (whole, thousandths as u16)
}

/// `bytes` in the unit that `get_byte_unit` finds for it: the whole units,
/// fewer than 1024, and the thousandths of a unit that are left.
pub fn format_bytes(bytes: usize) -> (parts: (u128, u16))
    ensures
        (parts.0 as nat, parts.1 as nat) == in_units(
            bytes as nat,
            kibi_power(kibi_steps(bytes as nat)),
        ),
        parts.0 < 1024,
{
    let mut rest: usize = bytes;
    let mut power: u128 = 1;
    proof {
        lemma_kibi_power(bytes as nat);
    }
    while rest >= 1024
        invariant
            power >= 1,
            power * kibi_power(kibi_steps(rest as nat)) == kibi_power(kibi_steps(bytes as nat)),
            kibi_power(kibi_steps(bytes as nat)) <= bytes || bytes == 0,
        decreases rest,
    {
        proof {
            let next = kibi_power(kibi_steps((rest / 1024) as nat));
            lemma_kibi_power((rest / 1024) as nat);
            assert(power * (1024 * next) == (power * 1024) * next) by (nonlinear_arith);
            assert(power * 1024 <= (power * 1024) * next) by (nonlinear_arith)
                requires
                    next >= 1,
                    power >= 1,
            ;
        }
        rest = rest / 1024;
        power = power * 1024;
    }
    proof {
        assert(kibi_power(kibi_steps(rest as nat)) == 1);
        assert(power * 1 == power) by (nonlinear_arith);
    }
    split(bytes as u128, power)
}

/// `seconds` in the unit that `get_time_unit` finds for it from `unit`
/// upwards: the whole units, and the thousandths of a unit that are left.
pub fn format_time(seconds: u128, unit: Unit) -> (parts: (u128, u16))
    ensures
        (parts.0 as nat, parts.1 as nat) == in_units(
            seconds as nat,
            time_unit(seconds as nat, unit).value(),
        ),
{
    let chosen = get_time_unit(seconds, unit);
    split(seconds, chosen.to_uint())
}

} // verus!
