//! Unit resolution of `CONVERT`: base units by name (case-sensitive),
//! SI and binary prefixes, and which conversion two unit names call for.
//! Factors are exact: a decimal `mantissa * 10^exponent` or a ratio.
use vstd::prelude::*;

use crate::cell_error::CellError;
use crate::text::chars_of;

verus! {

/// Measurement categories; units convert only within one.
#[derive(Debug, Clone, Copy, PartialEq, Eq, Structural)]
pub enum Category {
    Weight,
    Distance,
    Time,
    Pressure,
    Force,
    Energy,
    Power,
    Magnetism,
    Temperature,
    Volume,
    Area,
    Speed,
    Information,
}

/// Temperature scales.
#[derive(Debug, Clone, Copy, PartialEq, Eq, Structural)]
pub enum TempUnit {
    Celsius,
    Fahrenheit,
    Kelvin,
    Rankine,
    Reaumur,
}

/// An exact factor to a category's base unit.
#[derive(Debug, Clone, Copy, PartialEq, Eq, Structural)]
pub enum Factor {
    /// `mantissa * 10^exponent`.
    Decimal(u64, i32),
    /// `numerator / denominator`.
    Ratio(u64, u64),
}

/// A base unit: a factor within a category, or a temperature scale.
#[derive(Debug, Clone, Copy, PartialEq, Eq, Structural)]
pub enum UnitInfo {
    /// A unit converting by a factor.
    Standard { category: Category, factor: Factor },
    /// A temperature scale.
    Temp(TempUnit),
}

/// A resolved unit: a base unit with the factor of its prefix, if any.
#[derive(Debug, Clone, Copy, PartialEq, Eq, Structural)]
pub enum Unit {
    /// A unit converting by `factor`, times the prefix's factor.
    Standard { category: Category, factor: Factor, prefix: Option<Factor> },
    /// A temperature scale.
    Temp(TempUnit),
}

/// A base factor with the factor of its prefix, if any.
#[derive(Debug, Clone, Copy, PartialEq, Eq, Structural)]
pub struct Scaled {
    /// The base unit's factor.
    pub factor: Factor,
    /// The prefix's factor.
    pub prefix: Option<Factor>,
}

/// What a conversion between two units computes.
#[derive(Debug, Clone, Copy, PartialEq, Eq, Structural)]
pub enum Conversion {
    /// Multiply by the scaled factor of `from` over that of `to`.
    Scale { from: Scaled, to: Scaled },
    /// Convert between temperature scales.
    Temperature { from: TempUnit, to: TempUnit },
}

/// The number of prefixes.
pub const PREFIX_COUNT: usize = 28;

/// The category of a resolved unit.
pub open spec fn unit_category(u: Unit) -> Category {
    match u {
        Unit::Standard { category, .. } => category,
        Unit::Temp(_) => Category::Temperature,
    }
}

/// `a` unless it is `None`, else `b`.
pub open spec fn first_some(a: Option<UnitInfo>, b: Option<UnitInfo>) -> Option<UnitInfo> {
    if a is Some {
        a
    } else {
        b
    }
}

/// Base units, part 1 of 9.
pub open spec fn base_units_0(s: Seq<char>) -> Option<UnitInfo> {
    if s == "g"@ {
        Some(UnitInfo::Standard { category: Category::Weight, factor: Factor::Decimal(1, ((-3) as i32)) })
    } else if s == "sg"@ {
        Some(UnitInfo::Standard { category: Category::Weight, factor: Factor::Decimal(1459390294, ((-8) as i32)) })
    } else if s == "lbm"@ {
        Some(UnitInfo::Standard { category: Category::Weight, factor: Factor::Decimal(45359237, ((-8) as i32)) })
    } else if s == "u"@ {
        Some(UnitInfo::Standard { category: Category::Weight, factor: Factor::Decimal(1660538921, ((-36) as i32)) })
    } else if s == "ozm"@ {
        Some(UnitInfo::Standard { category: Category::Weight, factor: Factor::Decimal(28349523125, ((-12) as i32)) })
    } else if s == "grain"@ {
        Some(UnitInfo::Standard { category: Category::Weight, factor: Factor::Decimal(6479891, ((-11) as i32)) })
    } else if s == "cwt"@ || s == "shweight"@ {
        Some(UnitInfo::Standard { category: Category::Weight, factor: Factor::Decimal(45359237, ((-6) as i32)) })
    } else if s == "uk_cwt"@ || s == "lcwt"@ || s == "hweight"@ {
        Some(UnitInfo::Standard { category: Category::Weight, factor: Factor::Decimal(5080234544, ((-8) as i32)) })
    } else if s == "stone"@ {
        Some(UnitInfo::Standard { category: Category::Weight, factor: Factor::Decimal(635029318, ((-8) as i32)) })
    } else if s == "ton"@ {
        Some(UnitInfo::Standard { category: Category::Weight, factor: Factor::Decimal(90718474, ((-5) as i32)) })
    } else if s == "uk_ton"@ || s == "LTON"@ || s == "brton"@ {
        Some(UnitInfo::Standard { category: Category::Weight, factor: Factor::Decimal(10160469088, ((-7) as i32)) })
    } else if s == "m"@ {
        Some(UnitInfo::Standard { category: Category::Distance, factor: Factor::Decimal(1, 0) })
    } else {
        None
    }
}

/// Base units, part 2 of 9.
pub open spec fn base_units_1(s: Seq<char>) -> Option<UnitInfo> {
    if s == "mi"@ {
        Some(UnitInfo::Standard { category: Category::Distance, factor: Factor::Decimal(1609344, ((-3) as i32)) })
    } else if s == "Nmi"@ {
        Some(UnitInfo::Standard { category: Category::Distance, factor: Factor::Decimal(1852, 0) })
    } else if s == "in"@ {
        Some(UnitInfo::Standard { category: Category::Distance, factor: Factor::Decimal(254, ((-4) as i32)) })
    } else if s == "ft"@ {
        Some(UnitInfo::Standard { category: Category::Distance, factor: Factor::Decimal(3048, ((-4) as i32)) })
    } else if s == "yd"@ {
        Some(UnitInfo::Standard { category: Category::Distance, factor: Factor::Decimal(9144, ((-4) as i32)) })
    } else if s == "ang"@ {
        Some(UnitInfo::Standard { category: Category::Distance, factor: Factor::Decimal(1, ((-10) as i32)) })
    } else if s == "ell"@ {
        Some(UnitInfo::Standard { category: Category::Distance, factor: Factor::Decimal(1143, ((-3) as i32)) })
    } else if s == "ly"@ {
        Some(UnitInfo::Standard { category: Category::Distance, factor: Factor::Decimal(946073047258, 4) })
    } else if s == "parsec"@ || s == "pc"@ {
        Some(UnitInfo::Standard { category: Category::Distance, factor: Factor::Decimal(308567758149, 5) })
    } else if s == "Picapt"@ || s == "Pica"@ {
        Some(UnitInfo::Standard { category: Category::Distance, factor: Factor::Decimal(35277778, ((-11) as i32)) })
    } else if s == "pica"@ {
        Some(UnitInfo::Standard { category: Category::Distance, factor: Factor::Decimal(423333333, ((-11) as i32)) })
    } else if s == "survey_mi"@ {
        Some(UnitInfo::Standard { category: Category::Distance, factor: Factor::Decimal(1609347219, ((-6) as i32)) })
    } else {
        None
    }
}

/// Base units, part 3 of 9.
pub open spec fn base_units_2(s: Seq<char>) -> Option<UnitInfo> {
    if s == "yr"@ {
        Some(UnitInfo::Standard { category: Category::Time, factor: Factor::Decimal(315576, 2) })
    } else if s == "day"@ {
        Some(UnitInfo::Standard { category: Category::Time, factor: Factor::Decimal(864, 2) })
    } else if s == "hr"@ {
        Some(UnitInfo::Standard { category: Category::Time, factor: Factor::Decimal(36, 2) })
    } else if s == "mn"@ {
        Some(UnitInfo::Standard { category: Category::Time, factor: Factor::Decimal(6, 1) })
    } else if s == "sec"@ {
        Some(UnitInfo::Standard { category: Category::Time, factor: Factor::Decimal(1, 0) })
    } else if s == "Pa"@ || s == "p"@ {
        Some(UnitInfo::Standard { category: Category::Pressure, factor: Factor::Decimal(1, 0) })
    } else if s == "atm"@ || s == "at"@ {
        Some(UnitInfo::Standard { category: Category::Pressure, factor: Factor::Decimal(101325, 0) })
    } else if s == "mmHg"@ {
        Some(UnitInfo::Standard { category: Category::Pressure, factor: Factor::Decimal(133322, ((-3) as i32)) })
    } else if s == "psi"@ {
        Some(UnitInfo::Standard { category: Category::Pressure, factor: Factor::Decimal(6894757293168, ((-9) as i32)) })
    } else if s == "Torr"@ {
        Some(UnitInfo::Standard { category: Category::Pressure, factor: Factor::Decimal(1333223684211, ((-10) as i32)) })
    } else if s == "N"@ {
        Some(UnitInfo::Standard { category: Category::Force, factor: Factor::Decimal(1, 0) })
    } else if s == "dyn"@ || s == "dy"@ {
        Some(UnitInfo::Standard { category: Category::Force, factor: Factor::Decimal(1, ((-5) as i32)) })
    } else {
        None
    }
}

/// Base units, part 4 of 9.
pub open spec fn base_units_3(s: Seq<char>) -> Option<UnitInfo> {
    if s == "lbf"@ {
        Some(UnitInfo::Standard { category: Category::Force, factor: Factor::Decimal(44482216152605, ((-13) as i32)) })
    } else if s == "pond"@ {
        Some(UnitInfo::Standard { category: Category::Force, factor: Factor::Decimal(980665, ((-8) as i32)) })
    } else if s == "J"@ {
        Some(UnitInfo::Standard { category: Category::Energy, factor: Factor::Decimal(1, 0) })
    } else if s == "eV"@ || s == "ev"@ {
        Some(UnitInfo::Standard { category: Category::Energy, factor: Factor::Decimal(1602176634, ((-28) as i32)) })
    } else if s == "cal"@ {
        Some(UnitInfo::Standard { category: Category::Energy, factor: Factor::Decimal(41868, ((-4) as i32)) })
    } else if s == "c"@ {
        Some(UnitInfo::Standard { category: Category::Energy, factor: Factor::Decimal(4184, ((-3) as i32)) })
    } else if s == "BTU"@ || s == "btu"@ {
        Some(UnitInfo::Standard { category: Category::Energy, factor: Factor::Decimal(105505585262, ((-8) as i32)) })
    } else if s == "HPh"@ || s == "hh"@ {
        Some(UnitInfo::Standard { category: Category::Energy, factor: Factor::Decimal(26845195368856, ((-7) as i32)) })
    } else if s == "Wh"@ || s == "wh"@ {
        Some(UnitInfo::Standard { category: Category::Energy, factor: Factor::Decimal(36, 2) })
    } else if s == "flb"@ {
        Some(UnitInfo::Standard { category: Category::Energy, factor: Factor::Decimal(13558179483314, ((-13) as i32)) })
    } else if s == "W"@ || s == "w"@ {
        Some(UnitInfo::Standard { category: Category::Power, factor: Factor::Decimal(1, 0) })
    } else if s == "HP"@ || s == "h"@ {
        Some(UnitInfo::Standard { category: Category::Power, factor: Factor::Decimal(74569987158227, ((-11) as i32)) })
    } else {
        None
    }
}

/// Base units, part 5 of 9.
pub open spec fn base_units_4(s: Seq<char>) -> Option<UnitInfo> {
    if s == "PS"@ {
        Some(UnitInfo::Standard { category: Category::Power, factor: Factor::Decimal(73549875, ((-5) as i32)) })
    } else if s == "T"@ {
        Some(UnitInfo::Standard { category: Category::Magnetism, factor: Factor::Decimal(1, 0) })
    } else if s == "ga"@ {
        Some(UnitInfo::Standard { category: Category::Magnetism, factor: Factor::Decimal(1, ((-4) as i32)) })
    } else if s == "C"@ || s == "cel"@ {
        Some(UnitInfo::Temp(TempUnit::Celsius))
    } else if s == "F"@ || s == "fah"@ {
        Some(UnitInfo::Temp(TempUnit::Fahrenheit))
    } else if s == "K"@ || s == "kel"@ {
        Some(UnitInfo::Temp(TempUnit::Kelvin))
    } else if s == "Rank"@ {
        Some(UnitInfo::Temp(TempUnit::Rankine))
    } else if s == "Reau"@ {
        Some(UnitInfo::Temp(TempUnit::Reaumur))
    } else if s == "tsp"@ {
        Some(UnitInfo::Standard { category: Category::Volume, factor: Factor::Decimal(492892159375, ((-14) as i32)) })
    } else if s == "tspm"@ {
        Some(UnitInfo::Standard { category: Category::Volume, factor: Factor::Decimal(5, ((-3) as i32)) })
    } else if s == "tbs"@ {
        Some(UnitInfo::Standard { category: Category::Volume, factor: Factor::Decimal(1478676478125, ((-14) as i32)) })
    } else if s == "oz"@ {
        Some(UnitInfo::Standard { category: Category::Volume, factor: Factor::Decimal(295735295625, ((-13) as i32)) })
    } else {
        None
    }
}

/// Base units, part 6 of 9.
pub open spec fn base_units_5(s: Seq<char>) -> Option<UnitInfo> {
    if s == "cup"@ {
        Some(UnitInfo::Standard { category: Category::Volume, factor: Factor::Decimal(2365882365, ((-10) as i32)) })
    } else if s == "pt"@ || s == "us_pt"@ {
        Some(UnitInfo::Standard { category: Category::Volume, factor: Factor::Decimal(473176473, ((-9) as i32)) })
    } else if s == "uk_pt"@ {
        Some(UnitInfo::Standard { category: Category::Volume, factor: Factor::Decimal(56826125, ((-8) as i32)) })
    } else if s == "qt"@ {
        Some(UnitInfo::Standard { category: Category::Volume, factor: Factor::Decimal(946352946, ((-9) as i32)) })
    } else if s == "uk_qt"@ {
        Some(UnitInfo::Standard { category: Category::Volume, factor: Factor::Decimal(11365225, ((-7) as i32)) })
    } else if s == "gal"@ {
        Some(UnitInfo::Standard { category: Category::Volume, factor: Factor::Decimal(3785411784, ((-9) as i32)) })
    } else if s == "uk_gal"@ {
        Some(UnitInfo::Standard { category: Category::Volume, factor: Factor::Decimal(454609, ((-5) as i32)) })
    } else if s == "l"@ || s == "L"@ || s == "lt"@ {
        Some(UnitInfo::Standard { category: Category::Volume, factor: Factor::Decimal(1, 0) })
    } else if s == "ang3"@ || s == "ang^3"@ {
        Some(UnitInfo::Standard { category: Category::Volume, factor: Factor::Decimal(1, ((-27) as i32)) })
    } else if s == "barrel"@ {
        Some(UnitInfo::Standard { category: Category::Volume, factor: Factor::Decimal(158987294928, ((-9) as i32)) })
    } else if s == "bushel"@ {
        Some(UnitInfo::Standard { category: Category::Volume, factor: Factor::Decimal(3523907017, ((-8) as i32)) })
    } else if s == "ft3"@ || s == "ft^3"@ {
        Some(UnitInfo::Standard { category: Category::Volume, factor: Factor::Decimal(28316846592, ((-9) as i32)) })
    } else {
        None
    }
}

/// Base units, part 7 of 9.
pub open spec fn base_units_6(s: Seq<char>) -> Option<UnitInfo> {
    if s == "in3"@ || s == "in^3"@ {
        Some(UnitInfo::Standard { category: Category::Volume, factor: Factor::Decimal(16387064, ((-9) as i32)) })
    } else if s == "ly3"@ || s == "ly^3"@ {
        Some(UnitInfo::Standard { category: Category::Volume, factor: Factor::Decimal(846786664624, 36) })
    } else if s == "m3"@ || s == "m^3"@ {
        Some(UnitInfo::Standard { category: Category::Volume, factor: Factor::Decimal(1, 3) })
    } else if s == "mi3"@ || s == "mi^3"@ {
        Some(UnitInfo::Standard { category: Category::Volume, factor: Factor::Decimal(4168181825, 3) })
    } else if s == "yd3"@ || s == "yd^3"@ {
        Some(UnitInfo::Standard { category: Category::Volume, factor: Factor::Decimal(764554857984, ((-9) as i32)) })
    } else if s == "Nmi3"@ || s == "Nmi^3"@ {
        Some(UnitInfo::Standard { category: Category::Volume, factor: Factor::Decimal(6352182208, 0) })
    } else if s == "Picapt3"@ || s == "Picapt^3"@ {
        Some(UnitInfo::Standard { category: Category::Volume, factor: Factor::Decimal(439157, ((-16) as i32)) })
    } else if s == "GRT"@ || s == "regton"@ {
        Some(UnitInfo::Standard { category: Category::Volume, factor: Factor::Decimal(28316846592, ((-7) as i32)) })
    } else if s == "MTON"@ {
        Some(UnitInfo::Standard { category: Category::Volume, factor: Factor::Decimal(113267386368, ((-8) as i32)) })
    } else if s == "uk_acre"@ {
        Some(UnitInfo::Standard { category: Category::Area, factor: Factor::Decimal(40468564224, ((-7) as i32)) })
    } else if s == "us_acre"@ {
        Some(UnitInfo::Standard { category: Category::Area, factor: Factor::Decimal(4046872609874, ((-9) as i32)) })
    } else if s == "ang2"@ || s == "ang^2"@ {
        Some(UnitInfo::Standard { category: Category::Area, factor: Factor::Decimal(1, ((-20) as i32)) })
    } else {
        None
    }
}

/// Base units, part 8 of 9.
pub open spec fn base_units_7(s: Seq<char>) -> Option<UnitInfo> {
    if s == "ar"@ {
        Some(UnitInfo::Standard { category: Category::Area, factor: Factor::Decimal(1, 2) })
    } else if s == "ft2"@ || s == "ft^2"@ {
        Some(UnitInfo::Standard { category: Category::Area, factor: Factor::Decimal(9290304, ((-8) as i32)) })
    } else if s == "ha"@ {
        Some(UnitInfo::Standard { category: Category::Area, factor: Factor::Decimal(1, 4) })
    } else if s == "in2"@ || s == "in^2"@ {
        Some(UnitInfo::Standard { category: Category::Area, factor: Factor::Decimal(64516, ((-8) as i32)) })
    } else if s == "ly2"@ || s == "ly^2"@ {
        Some(UnitInfo::Standard { category: Category::Area, factor: Factor::Decimal(89505421075, 21) })
    } else if s == "m2"@ || s == "m^2"@ {
        Some(UnitInfo::Standard { category: Category::Area, factor: Factor::Decimal(1, 0) })
    } else if s == "Morgen"@ {
        Some(UnitInfo::Standard { category: Category::Area, factor: Factor::Decimal(25, 2) })
    } else if s == "mi2"@ || s == "mi^2"@ {
        Some(UnitInfo::Standard { category: Category::Area, factor: Factor::Decimal(2589988110336, ((-6) as i32)) })
    } else if s == "Nmi2"@ || s == "Nmi^2"@ {
        Some(UnitInfo::Standard { category: Category::Area, factor: Factor::Decimal(3429904, 0) })
    } else if s == "Picapt2"@ || s == "Picapt^2"@ {
        Some(UnitInfo::Standard { category: Category::Area, factor: Factor::Decimal(124452, ((-12) as i32)) })
    } else if s == "yd2"@ || s == "yd^2"@ {
        Some(UnitInfo::Standard { category: Category::Area, factor: Factor::Decimal(83612736, ((-8) as i32)) })
    } else if s == "admkn"@ {
        Some(UnitInfo::Standard { category: Category::Speed, factor: Factor::Decimal(514773333, ((-9) as i32)) })
    } else {
        None
    }
}

/// Base units, part 9 of 9.
pub open spec fn base_units_8(s: Seq<char>) -> Option<UnitInfo> {
    if s == "kn"@ {
        Some(UnitInfo::Standard { category: Category::Speed, factor: Factor::Decimal(514444444, ((-9) as i32)) })
    } else if s == "m/h"@ || s == "m/hr"@ {
        Some(UnitInfo::Standard { category: Category::Speed, factor: Factor::Ratio(1, 3600) })
    } else if s == "m/s"@ || s == "m/sec"@ {
        Some(UnitInfo::Standard { category: Category::Speed, factor: Factor::Decimal(1, 0) })
    } else if s == "mph"@ {
        Some(UnitInfo::Standard { category: Category::Speed, factor: Factor::Decimal(44704, ((-5) as i32)) })
    } else if s == "bit"@ {
        Some(UnitInfo::Standard { category: Category::Information, factor: Factor::Decimal(1, 0) })
    } else if s == "byte"@ {
        Some(UnitInfo::Standard { category: Category::Information, factor: Factor::Decimal(8, 0) })
    } else {
        None
    }
}

/// The base unit named `s` (case-sensitive), with its aliases.
pub open spec fn base_unit(s: Seq<char>) -> Option<UnitInfo> {
    first_some(base_units_0(s), first_some(base_units_1(s), first_some(base_units_2(s), first_some(base_units_3(s), first_some(base_units_4(s), first_some(base_units_5(s), first_some(base_units_6(s), first_some(base_units_7(s), base_units_8(s)))))))))
}

/// Whether `v[from..]` spells `lit`.
fn chars_equal_str(v: &[char], from: usize, lit: &str) -> (r: bool)
    requires
        from <= v@.len(),
    ensures
        r == (v@.skip(from as int) == lit@),
{
    let len = v.len();
    match prefix_len(v, from, lit) {
        Some(n) => {
            proof {
                if v@.skip(from as int) == lit@ {
                    assert(from + n == v@.len());
                }
                if from + n == v@.len() {
                    assert(v@.skip(from as int) =~= v@.subrange(from as int, from + n));
                }
            }
            from + n == len
        },
        None => {
            proof {
                if v@.skip(from as int) == lit@ {
                    assert(v@.subrange(from as int, from + lit@.len()) =~= lit@);
                }
            }
            false
        },
    }
}

/// The length of `lit` when `v[from..]` starts with it.
fn prefix_len(v: &[char], from: usize, lit: &str) -> (r: Option<usize>)
    requires
        from <= v@.len(),
    ensures
        match r {
            Some(n) => n == lit@.len() && from + n <= v@.len() && v@.subrange(from as int, from + n)
                == lit@,
            None => !(from + lit@.len() <= v@.len() && v@.subrange(from as int, from + lit@.len())
                == lit@),
        },
{
    let l = chars_of(lit);
    if l.len() > v.len() - from {
        return None;
    }
    let mut i: usize = 0;
    while i < l.len()
        invariant
            i <= l@.len(),
            l@ == lit@,
            from + l@.len() <= v@.len() <= usize::MAX,
            v@.subrange(from as int, from + i) == l@.take(i as int),
        decreases l@.len() - i,
    {
        if v[from + i] != l[i] {
            proof {
                assert(v@.subrange(from as int, from + l@.len())[i as int] == v@[from + i]);
            }
            return None;
        }
        i += 1;
        proof {
            assert(v@.subrange(from as int, from + i) =~= l@.take(i as int));
        }
    }
    proof {
        assert(l@.take(i as int) =~= l@);
    }
    Some(l.len())
}

fn lookup_base_units_0(v: &[char], from: usize) -> (r: Option<UnitInfo>)
    requires
        from <= v@.len(),
    ensures
        r == base_units_0(v@.skip(from as int)),
{
    if chars_equal_str(v, from, "g") {
        return Some(UnitInfo::Standard { category: Category::Weight, factor: Factor::Decimal(1, -3) });
    }
    if chars_equal_str(v, from, "sg") {
        return Some(UnitInfo::Standard { category: Category::Weight, factor: Factor::Decimal(1459390294, -8) });
    }
    if chars_equal_str(v, from, "lbm") {
        return Some(UnitInfo::Standard { category: Category::Weight, factor: Factor::Decimal(45359237, -8) });
    }
    if chars_equal_str(v, from, "u") {
        return Some(UnitInfo::Standard { category: Category::Weight, factor: Factor::Decimal(1660538921, -36) });
    }
    if chars_equal_str(v, from, "ozm") {
        return Some(UnitInfo::Standard { category: Category::Weight, factor: Factor::Decimal(28349523125, -12) });
    }
    if chars_equal_str(v, from, "grain") {
        return Some(UnitInfo::Standard { category: Category::Weight, factor: Factor::Decimal(6479891, -11) });
    }
    if chars_equal_str(v, from, "cwt") || chars_equal_str(v, from, "shweight") {
        return Some(UnitInfo::Standard { category: Category::Weight, factor: Factor::Decimal(45359237, -6) });
    }
    if chars_equal_str(v, from, "uk_cwt") || chars_equal_str(v, from, "lcwt") || chars_equal_str(v, from, "hweight") {
        return Some(UnitInfo::Standard { category: Category::Weight, factor: Factor::Decimal(5080234544, -8) });
    }
    if chars_equal_str(v, from, "stone") {
        return Some(UnitInfo::Standard { category: Category::Weight, factor: Factor::Decimal(635029318, -8) });
    }
    if chars_equal_str(v, from, "ton") {
        return Some(UnitInfo::Standard { category: Category::Weight, factor: Factor::Decimal(90718474, -5) });
    }
    if chars_equal_str(v, from, "uk_ton") || chars_equal_str(v, from, "LTON") || chars_equal_str(v, from, "brton") {
        return Some(UnitInfo::Standard { category: Category::Weight, factor: Factor::Decimal(10160469088, -7) });
    }
    if chars_equal_str(v, from, "m") {
        return Some(UnitInfo::Standard { category: Category::Distance, factor: Factor::Decimal(1, 0) });
    }
    None
}

fn lookup_base_units_1(v: &[char], from: usize) -> (r: Option<UnitInfo>)
    requires
        from <= v@.len(),
    ensures
        r == base_units_1(v@.skip(from as int)),
{
    if chars_equal_str(v, from, "mi") {
        return Some(UnitInfo::Standard { category: Category::Distance, factor: Factor::Decimal(1609344, -3) });
    }
    if chars_equal_str(v, from, "Nmi") {
        return Some(UnitInfo::Standard { category: Category::Distance, factor: Factor::Decimal(1852, 0) });
    }
    if chars_equal_str(v, from, "in") {
        return Some(UnitInfo::Standard { category: Category::Distance, factor: Factor::Decimal(254, -4) });
    }
    if chars_equal_str(v, from, "ft") {
        return Some(UnitInfo::Standard { category: Category::Distance, factor: Factor::Decimal(3048, -4) });
    }
    if chars_equal_str(v, from, "yd") {
        return Some(UnitInfo::Standard { category: Category::Distance, factor: Factor::Decimal(9144, -4) });
    }
    if chars_equal_str(v, from, "ang") {
        return Some(UnitInfo::Standard { category: Category::Distance, factor: Factor::Decimal(1, -10) });
    }
    if chars_equal_str(v, from, "ell") {
        return Some(UnitInfo::Standard { category: Category::Distance, factor: Factor::Decimal(1143, -3) });
    }
    if chars_equal_str(v, from, "ly") {
        return Some(UnitInfo::Standard { category: Category::Distance, factor: Factor::Decimal(946073047258, 4) });
    }
    if chars_equal_str(v, from, "parsec") || chars_equal_str(v, from, "pc") {
        return Some(UnitInfo::Standard { category: Category::Distance, factor: Factor::Decimal(308567758149, 5) });
    }
    if chars_equal_str(v, from, "Picapt") || chars_equal_str(v, from, "Pica") {
        return Some(UnitInfo::Standard { category: Category::Distance, factor: Factor::Decimal(35277778, -11) });
    }
    if chars_equal_str(v, from, "pica") {
        return Some(UnitInfo::Standard { category: Category::Distance, factor: Factor::Decimal(423333333, -11) });
    }
    if chars_equal_str(v, from, "survey_mi") {
        return Some(UnitInfo::Standard { category: Category::Distance, factor: Factor::Decimal(1609347219, -6) });
    }
    None
}

fn lookup_base_units_2(v: &[char], from: usize) -> (r: Option<UnitInfo>)
    requires
        from <= v@.len(),
    ensures
        r == base_units_2(v@.skip(from as int)),
{
    if chars_equal_str(v, from, "yr") {
        return Some(UnitInfo::Standard { category: Category::Time, factor: Factor::Decimal(315576, 2) });
    }
    if chars_equal_str(v, from, "day") {
        return Some(UnitInfo::Standard { category: Category::Time, factor: Factor::Decimal(864, 2) });
    }
    if chars_equal_str(v, from, "hr") {
        return Some(UnitInfo::Standard { category: Category::Time, factor: Factor::Decimal(36, 2) });
    }
    if chars_equal_str(v, from, "mn") {
        return Some(UnitInfo::Standard { category: Category::Time, factor: Factor::Decimal(6, 1) });
    }
    if chars_equal_str(v, from, "sec") {
        return Some(UnitInfo::Standard { category: Category::Time, factor: Factor::Decimal(1, 0) });
    }
    if chars_equal_str(v, from, "Pa") || chars_equal_str(v, from, "p") {
        return Some(UnitInfo::Standard { category: Category::Pressure, factor: Factor::Decimal(1, 0) });
    }
    if chars_equal_str(v, from, "atm") || chars_equal_str(v, from, "at") {
        return Some(UnitInfo::Standard { category: Category::Pressure, factor: Factor::Decimal(101325, 0) });
    }
    if chars_equal_str(v, from, "mmHg") {
        return Some(UnitInfo::Standard { category: Category::Pressure, factor: Factor::Decimal(133322, -3) });
    }
    if chars_equal_str(v, from, "psi") {
        return Some(UnitInfo::Standard { category: Category::Pressure, factor: Factor::Decimal(6894757293168, -9) });
    }
    if chars_equal_str(v, from, "Torr") {
        return Some(UnitInfo::Standard { category: Category::Pressure, factor: Factor::Decimal(1333223684211, -10) });
    }
    if chars_equal_str(v, from, "N") {
        return Some(UnitInfo::Standard { category: Category::Force, factor: Factor::Decimal(1, 0) });
    }
    if chars_equal_str(v, from, "dyn") || chars_equal_str(v, from, "dy") {
        return Some(UnitInfo::Standard { category: Category::Force, factor: Factor::Decimal(1, -5) });
    }
    None
}

fn lookup_base_units_3(v: &[char], from: usize) -> (r: Option<UnitInfo>)
    requires
        from <= v@.len(),
    ensures
        r == base_units_3(v@.skip(from as int)),
{
    if chars_equal_str(v, from, "lbf") {
        return Some(UnitInfo::Standard { category: Category::Force, factor: Factor::Decimal(44482216152605, -13) });
    }
    if chars_equal_str(v, from, "pond") {
        return Some(UnitInfo::Standard { category: Category::Force, factor: Factor::Decimal(980665, -8) });
    }
    if chars_equal_str(v, from, "J") {
        return Some(UnitInfo::Standard { category: Category::Energy, factor: Factor::Decimal(1, 0) });
    }
    if chars_equal_str(v, from, "eV") || chars_equal_str(v, from, "ev") {
        return Some(UnitInfo::Standard { category: Category::Energy, factor: Factor::Decimal(1602176634, -28) });
    }
    if chars_equal_str(v, from, "cal") {
        return Some(UnitInfo::Standard { category: Category::Energy, factor: Factor::Decimal(41868, -4) });
    }
    if chars_equal_str(v, from, "c") {
        return Some(UnitInfo::Standard { category: Category::Energy, factor: Factor::Decimal(4184, -3) });
    }
    if chars_equal_str(v, from, "BTU") || chars_equal_str(v, from, "btu") {
        return Some(UnitInfo::Standard { category: Category::Energy, factor: Factor::Decimal(105505585262, -8) });
    }
    if chars_equal_str(v, from, "HPh") || chars_equal_str(v, from, "hh") {
        return Some(UnitInfo::Standard { category: Category::Energy, factor: Factor::Decimal(26845195368856, -7) });
    }
    if chars_equal_str(v, from, "Wh") || chars_equal_str(v, from, "wh") {
        return Some(UnitInfo::Standard { category: Category::Energy, factor: Factor::Decimal(36, 2) });
    }
    if chars_equal_str(v, from, "flb") {
        return Some(UnitInfo::Standard { category: Category::Energy, factor: Factor::Decimal(13558179483314, -13) });
    }
    if chars_equal_str(v, from, "W") || chars_equal_str(v, from, "w") {
        return Some(UnitInfo::Standard { category: Category::Power, factor: Factor::Decimal(1, 0) });
    }
    if chars_equal_str(v, from, "HP") || chars_equal_str(v, from, "h") {
        return Some(UnitInfo::Standard { category: Category::Power, factor: Factor::Decimal(74569987158227, -11) });
    }
    None
}

fn lookup_base_units_4(v: &[char], from: usize) -> (r: Option<UnitInfo>)
    requires
        from <= v@.len(),
    ensures
        r == base_units_4(v@.skip(from as int)),
{
    if chars_equal_str(v, from, "PS") {
        return Some(UnitInfo::Standard { category: Category::Power, factor: Factor::Decimal(73549875, -5) });
    }
    if chars_equal_str(v, from, "T") {
        return Some(UnitInfo::Standard { category: Category::Magnetism, factor: Factor::Decimal(1, 0) });
    }
    if chars_equal_str(v, from, "ga") {
        return Some(UnitInfo::Standard { category: Category::Magnetism, factor: Factor::Decimal(1, -4) });
    }
    if chars_equal_str(v, from, "C") || chars_equal_str(v, from, "cel") {
        return Some(UnitInfo::Temp(TempUnit::Celsius));
    }
    if chars_equal_str(v, from, "F") || chars_equal_str(v, from, "fah") {
        return Some(UnitInfo::Temp(TempUnit::Fahrenheit));
    }
    if chars_equal_str(v, from, "K") || chars_equal_str(v, from, "kel") {
        return Some(UnitInfo::Temp(TempUnit::Kelvin));
    }
    if chars_equal_str(v, from, "Rank") {
        return Some(UnitInfo::Temp(TempUnit::Rankine));
    }
    if chars_equal_str(v, from, "Reau") {
        return Some(UnitInfo::Temp(TempUnit::Reaumur));
    }
    if chars_equal_str(v, from, "tsp") {
        return Some(UnitInfo::Standard { category: Category::Volume, factor: Factor::Decimal(492892159375, -14) });
    }
    if chars_equal_str(v, from, "tspm") {
        return Some(UnitInfo::Standard { category: Category::Volume, factor: Factor::Decimal(5, -3) });
    }
    if chars_equal_str(v, from, "tbs") {
        return Some(UnitInfo::Standard { category: Category::Volume, factor: Factor::Decimal(1478676478125, -14) });
    }
    if chars_equal_str(v, from, "oz") {
        return Some(UnitInfo::Standard { category: Category::Volume, factor: Factor::Decimal(295735295625, -13) });
    }
    None
}

fn lookup_base_units_5(v: &[char], from: usize) -> (r: Option<UnitInfo>)
    requires
        from <= v@.len(),
    ensures
        r == base_units_5(v@.skip(from as int)),
{
    if chars_equal_str(v, from, "cup") {
        return Some(UnitInfo::Standard { category: Category::Volume, factor: Factor::Decimal(2365882365, -10) });
    }
    if chars_equal_str(v, from, "pt") || chars_equal_str(v, from, "us_pt") {
        return Some(UnitInfo::Standard { category: Category::Volume, factor: Factor::Decimal(473176473, -9) });
    }
    if chars_equal_str(v, from, "uk_pt") {
        return Some(UnitInfo::Standard { category: Category::Volume, factor: Factor::Decimal(56826125, -8) });
    }
    if chars_equal_str(v, from, "qt") {
        return Some(UnitInfo::Standard { category: Category::Volume, factor: Factor::Decimal(946352946, -9) });
    }
    if chars_equal_str(v, from, "uk_qt") {
        return Some(UnitInfo::Standard { category: Category::Volume, factor: Factor::Decimal(11365225, -7) });
    }
    if chars_equal_str(v, from, "gal") {
        return Some(UnitInfo::Standard { category: Category::Volume, factor: Factor::Decimal(3785411784, -9) });
    }
    if chars_equal_str(v, from, "uk_gal") {
        return Some(UnitInfo::Standard { category: Category::Volume, factor: Factor::Decimal(454609, -5) });
    }
    if chars_equal_str(v, from, "l") || chars_equal_str(v, from, "L") || chars_equal_str(v, from, "lt") {
        return Some(UnitInfo::Standard { category: Category::Volume, factor: Factor::Decimal(1, 0) });
    }
    if chars_equal_str(v, from, "ang3") || chars_equal_str(v, from, "ang^3") {
        return Some(UnitInfo::Standard { category: Category::Volume, factor: Factor::Decimal(1, -27) });
    }
    if chars_equal_str(v, from, "barrel") {
        return Some(UnitInfo::Standard { category: Category::Volume, factor: Factor::Decimal(158987294928, -9) });
    }
    if chars_equal_str(v, from, "bushel") {
        return Some(UnitInfo::Standard { category: Category::Volume, factor: Factor::Decimal(3523907017, -8) });
    }
    if chars_equal_str(v, from, "ft3") || chars_equal_str(v, from, "ft^3") {
        return Some(UnitInfo::Standard { category: Category::Volume, factor: Factor::Decimal(28316846592, -9) });
    }
    None
}

fn lookup_base_units_6(v: &[char], from: usize) -> (r: Option<UnitInfo>)
    requires
        from <= v@.len(),
    ensures
        r == base_units_6(v@.skip(from as int)),
{
    if chars_equal_str(v, from, "in3") || chars_equal_str(v, from, "in^3") {
        return Some(UnitInfo::Standard { category: Category::Volume, factor: Factor::Decimal(16387064, -9) });
    }
    if chars_equal_str(v, from, "ly3") || chars_equal_str(v, from, "ly^3") {
        return Some(UnitInfo::Standard { category: Category::Volume, factor: Factor::Decimal(846786664624, 36) });
    }
    if chars_equal_str(v, from, "m3") || chars_equal_str(v, from, "m^3") {
        return Some(UnitInfo::Standard { category: Category::Volume, factor: Factor::Decimal(1, 3) });
    }
    if chars_equal_str(v, from, "mi3") || chars_equal_str(v, from, "mi^3") {
        return Some(UnitInfo::Standard { category: Category::Volume, factor: Factor::Decimal(4168181825, 3) });
    }
    if chars_equal_str(v, from, "yd3") || chars_equal_str(v, from, "yd^3") {
        return Some(UnitInfo::Standard { category: Category::Volume, factor: Factor::Decimal(764554857984, -9) });
    }
    if chars_equal_str(v, from, "Nmi3") || chars_equal_str(v, from, "Nmi^3") {
        return Some(UnitInfo::Standard { category: Category::Volume, factor: Factor::Decimal(6352182208, 0) });
    }
    if chars_equal_str(v, from, "Picapt3") || chars_equal_str(v, from, "Picapt^3") {
        return Some(UnitInfo::Standard { category: Category::Volume, factor: Factor::Decimal(439157, -16) });
    }
    if chars_equal_str(v, from, "GRT") || chars_equal_str(v, from, "regton") {
        return Some(UnitInfo::Standard { category: Category::Volume, factor: Factor::Decimal(28316846592, -7) });
    }
    if chars_equal_str(v, from, "MTON") {
        return Some(UnitInfo::Standard { category: Category::Volume, factor: Factor::Decimal(113267386368, -8) });
    }
    if chars_equal_str(v, from, "uk_acre") {
        return Some(UnitInfo::Standard { category: Category::Area, factor: Factor::Decimal(40468564224, -7) });
    }
    if chars_equal_str(v, from, "us_acre") {
        return Some(UnitInfo::Standard { category: Category::Area, factor: Factor::Decimal(4046872609874, -9) });
    }
    if chars_equal_str(v, from, "ang2") || chars_equal_str(v, from, "ang^2") {
        return Some(UnitInfo::Standard { category: Category::Area, factor: Factor::Decimal(1, -20) });
    }
    None
}

fn lookup_base_units_7(v: &[char], from: usize) -> (r: Option<UnitInfo>)
    requires
        from <= v@.len(),
    ensures
        r == base_units_7(v@.skip(from as int)),
{
    if chars_equal_str(v, from, "ar") {
        return Some(UnitInfo::Standard { category: Category::Area, factor: Factor::Decimal(1, 2) });
    }
    if chars_equal_str(v, from, "ft2") || chars_equal_str(v, from, "ft^2") {
        return Some(UnitInfo::Standard { category: Category::Area, factor: Factor::Decimal(9290304, -8) });
    }
    if chars_equal_str(v, from, "ha") {
        return Some(UnitInfo::Standard { category: Category::Area, factor: Factor::Decimal(1, 4) });
    }
    if chars_equal_str(v, from, "in2") || chars_equal_str(v, from, "in^2") {
        return Some(UnitInfo::Standard { category: Category::Area, factor: Factor::Decimal(64516, -8) });
    }
    if chars_equal_str(v, from, "ly2") || chars_equal_str(v, from, "ly^2") {
        return Some(UnitInfo::Standard { category: Category::Area, factor: Factor::Decimal(89505421075, 21) });
    }
    if chars_equal_str(v, from, "m2") || chars_equal_str(v, from, "m^2") {
        return Some(UnitInfo::Standard { category: Category::Area, factor: Factor::Decimal(1, 0) });
    }
    if chars_equal_str(v, from, "Morgen") {
        return Some(UnitInfo::Standard { category: Category::Area, factor: Factor::Decimal(25, 2) });
    }
    if chars_equal_str(v, from, "mi2") || chars_equal_str(v, from, "mi^2") {
        return Some(UnitInfo::Standard { category: Category::Area, factor: Factor::Decimal(2589988110336, -6) });
    }
    if chars_equal_str(v, from, "Nmi2") || chars_equal_str(v, from, "Nmi^2") {
        return Some(UnitInfo::Standard { category: Category::Area, factor: Factor::Decimal(3429904, 0) });
    }
    if chars_equal_str(v, from, "Picapt2") || chars_equal_str(v, from, "Picapt^2") {
        return Some(UnitInfo::Standard { category: Category::Area, factor: Factor::Decimal(124452, -12) });
    }
    if chars_equal_str(v, from, "yd2") || chars_equal_str(v, from, "yd^2") {
        return Some(UnitInfo::Standard { category: Category::Area, factor: Factor::Decimal(83612736, -8) });
    }
    if chars_equal_str(v, from, "admkn") {
        return Some(UnitInfo::Standard { category: Category::Speed, factor: Factor::Decimal(514773333, -9) });
    }
    None
}

fn lookup_base_units_8(v: &[char], from: usize) -> (r: Option<UnitInfo>)
    requires
        from <= v@.len(),
    ensures
        r == base_units_8(v@.skip(from as int)),
{
    if chars_equal_str(v, from, "kn") {
        return Some(UnitInfo::Standard { category: Category::Speed, factor: Factor::Decimal(514444444, -9) });
    }
    if chars_equal_str(v, from, "m/h") || chars_equal_str(v, from, "m/hr") {
        return Some(UnitInfo::Standard { category: Category::Speed, factor: Factor::Ratio(1, 3600) });
    }
    if chars_equal_str(v, from, "m/s") || chars_equal_str(v, from, "m/sec") {
        return Some(UnitInfo::Standard { category: Category::Speed, factor: Factor::Decimal(1, 0) });
    }
    if chars_equal_str(v, from, "mph") {
        return Some(UnitInfo::Standard { category: Category::Speed, factor: Factor::Decimal(44704, -5) });
    }
    if chars_equal_str(v, from, "bit") {
        return Some(UnitInfo::Standard { category: Category::Information, factor: Factor::Decimal(1, 0) });
    }
    if chars_equal_str(v, from, "byte") {
        return Some(UnitInfo::Standard { category: Category::Information, factor: Factor::Decimal(8, 0) });
    }
    None
}

fn lookup_base_unit_at(v: &[char], from: usize) -> (r: Option<UnitInfo>)
    requires
        from <= v@.len(),
    ensures
        r == base_unit(v@.skip(from as int)),
{
    let r0 = lookup_base_units_0(v, from);
    if r0.is_some() {
        return r0;
    }
    let r1 = lookup_base_units_1(v, from);
    if r1.is_some() {
        return r1;
    }
    let r2 = lookup_base_units_2(v, from);
    if r2.is_some() {
        return r2;
    }
    let r3 = lookup_base_units_3(v, from);
    if r3.is_some() {
        return r3;
    }
    let r4 = lookup_base_units_4(v, from);
    if r4.is_some() {
        return r4;
    }
    let r5 = lookup_base_units_5(v, from);
    if r5.is_some() {
        return r5;
    }
    let r6 = lookup_base_units_6(v, from);
    if r6.is_some() {
        return r6;
    }
    let r7 = lookup_base_units_7(v, from);
    if r7.is_some() {
        return r7;
    }
    let r8 = lookup_base_units_8(v, from);
    r8
}

/// The base unit named exactly `s` (case-sensitive, aliases included).
/// Every unit it returns that converts by a factor has a positive factor
/// and is not a temperature, so a ratio of two factors never divides by
/// zero.
pub fn lookup_base_unit(s: &str) -> (r: Option<UnitInfo>)
    ensures
        r == base_unit(s@),
        scaled_base(r),
{
    let v = chars_of(s);
    let r = lookup_base_unit_at(v.as_slice(), 0);
    proof {
        assert(v@.skip(0) =~= v@);
        law_base_factors_positive(s@);
    }
    r
}

/// The prefixes tried, in order (longest symbols first where one is the
/// start of another), with their exact factors.
pub open spec fn prefix_symbol(i: int) -> Seq<char> {
    if i == 0 {
        "da"@
    } else if i == 1 {
        "Yi"@
    } else if i == 2 {
        "Zi"@
    } else if i == 3 {
        "Gi"@
    } else if i == 4 {
        "Ti"@
    } else if i == 5 {
        "Mi"@
    } else if i == 6 {
        "Pi"@
    } else if i == 7 {
        "Ei"@
    } else if i == 8 {
        "ki"@
    } else if i == 9 {
        "Y"@
    } else if i == 10 {
        "Z"@
    } else if i == 11 {
        "E"@
    } else if i == 12 {
        "P"@
    } else if i == 13 {
        "T"@
    } else if i == 14 {
        "G"@
    } else if i == 15 {
        "M"@
    } else if i == 16 {
        "k"@
    } else if i == 17 {
        "h"@
    } else if i == 18 {
        "d"@
    } else if i == 19 {
        "c"@
    } else if i == 20 {
        "m"@
    } else if i == 21 {
        "u"@
    } else if i == 22 {
        "n"@
    } else if i == 23 {
        "p"@
    } else if i == 24 {
        "f"@
    } else if i == 25 {
        "a"@
    } else if i == 26 {
        "z"@
    } else if i == 27 {
        "y"@
    } else {
        Seq::<char>::empty()
    }
}

/// The factor of prefix `i`.
pub open spec fn prefix_factor(i: int) -> Factor {
    if i == 0 {
        Factor::Decimal(1, 1)
    } else if i == 1 {
        Factor::Decimal(1208925819615, 12)
    } else if i == 2 {
        Factor::Decimal(1180591620717, 9)
    } else if i == 3 {
        Factor::Decimal(1073741824, 0)
    } else if i == 4 {
        Factor::Decimal(1099511627776, 0)
    } else if i == 5 {
        Factor::Decimal(1048576, 0)
    } else if i == 6 {
        Factor::Decimal(1125899906842624, 0)
    } else if i == 7 {
        Factor::Decimal(1152921504606846976, 0)
    } else if i == 8 {
        Factor::Decimal(1024, 0)
    } else if i == 9 {
        Factor::Decimal(1, 24)
    } else if i == 10 {
        Factor::Decimal(1, 21)
    } else if i == 11 {
        Factor::Decimal(1, 18)
    } else if i == 12 {
        Factor::Decimal(1, 15)
    } else if i == 13 {
        Factor::Decimal(1, 12)
    } else if i == 14 {
        Factor::Decimal(1, 9)
    } else if i == 15 {
        Factor::Decimal(1, 6)
    } else if i == 16 {
        Factor::Decimal(1, 3)
    } else if i == 17 {
        Factor::Decimal(1, 2)
    } else if i == 18 {
        Factor::Decimal(1, ((-1) as i32))
    } else if i == 19 {
        Factor::Decimal(1, ((-2) as i32))
    } else if i == 20 {
        Factor::Decimal(1, ((-3) as i32))
    } else if i == 21 {
        Factor::Decimal(1, ((-6) as i32))
    } else if i == 22 {
        Factor::Decimal(1, ((-9) as i32))
    } else if i == 23 {
        Factor::Decimal(1, ((-12) as i32))
    } else if i == 24 {
        Factor::Decimal(1, ((-15) as i32))
    } else if i == 25 {
        Factor::Decimal(1, ((-18) as i32))
    } else if i == 26 {
        Factor::Decimal(1, ((-21) as i32))
    } else if i == 27 {
        Factor::Decimal(1, ((-24) as i32))
    } else {
        Factor::Decimal(1, 0)
    }
}

/// The symbol and factor of prefix `i`.
fn prefix_at(i: usize) -> (r: (&'static str, Factor))
    requires
        i < PREFIX_COUNT,
    ensures
        r.0@ == prefix_symbol(i as int),
        r.1 == prefix_factor(i as int),
{
    if i == 0 {
        ("da", Factor::Decimal(1, 1))
    } else if i == 1 {
        ("Yi", Factor::Decimal(1208925819615, 12))
    } else if i == 2 {
        ("Zi", Factor::Decimal(1180591620717, 9))
    } else if i == 3 {
        ("Gi", Factor::Decimal(1073741824, 0))
    } else if i == 4 {
        ("Ti", Factor::Decimal(1099511627776, 0))
    } else if i == 5 {
        ("Mi", Factor::Decimal(1048576, 0))
    } else if i == 6 {
        ("Pi", Factor::Decimal(1125899906842624, 0))
    } else if i == 7 {
        ("Ei", Factor::Decimal(1152921504606846976, 0))
    } else if i == 8 {
        ("ki", Factor::Decimal(1024, 0))
    } else if i == 9 {
        ("Y", Factor::Decimal(1, 24))
    } else if i == 10 {
        ("Z", Factor::Decimal(1, 21))
    } else if i == 11 {
        ("E", Factor::Decimal(1, 18))
    } else if i == 12 {
        ("P", Factor::Decimal(1, 15))
    } else if i == 13 {
        ("T", Factor::Decimal(1, 12))
    } else if i == 14 {
        ("G", Factor::Decimal(1, 9))
    } else if i == 15 {
        ("M", Factor::Decimal(1, 6))
    } else if i == 16 {
        ("k", Factor::Decimal(1, 3))
    } else if i == 17 {
        ("h", Factor::Decimal(1, 2))
    } else if i == 18 {
        ("d", Factor::Decimal(1, -1))
    } else if i == 19 {
        ("c", Factor::Decimal(1, -2))
    } else if i == 20 {
        ("m", Factor::Decimal(1, -3))
    } else if i == 21 {
        ("u", Factor::Decimal(1, -6))
    } else if i == 22 {
        ("n", Factor::Decimal(1, -9))
    } else if i == 23 {
        ("p", Factor::Decimal(1, -12))
    } else if i == 24 {
        ("f", Factor::Decimal(1, -15))
    } else if i == 25 {
        ("a", Factor::Decimal(1, -18))
    } else if i == 26 {
        ("z", Factor::Decimal(1, -21))
    } else {
        ("y", Factor::Decimal(1, -24))
    }
}

/// The unit after prefix `i` (or a later one) of `s`: the first prefix
/// that `s` strictly starts with and whose rest names a base unit; `None`
/// when that unit is a temperature or no prefix fits.
pub open spec fn with_prefix(s: Seq<char>, i: int) -> Option<Unit>
    decreases PREFIX_COUNT - i,
{
    if i < 0 || i >= PREFIX_COUNT {
        None
    } else {
        let p = prefix_symbol(i);
        if p.len() < s.len() && s.take(p.len() as int) == p {
            match base_unit(s.skip(p.len() as int)) {
                Some(UnitInfo::Standard { category, factor }) => Some(
                    Unit::Standard { category, factor, prefix: Some(prefix_factor(i)) },
                ),
                Some(UnitInfo::Temp(_)) => None,
                None => with_prefix(s, i + 1),
            }
        } else {
            with_prefix(s, i + 1)
        }
    }
}

/// The unit named `s`: a base unit by exact name, else a prefixed one.
pub open spec fn spec_parse_unit(s: Seq<char>) -> Option<Unit> {
    match base_unit(s) {
        Some(UnitInfo::Standard { category, factor }) => Some(
            Unit::Standard { category, factor, prefix: None },
        ),
        Some(UnitInfo::Temp(t)) => Some(Unit::Temp(t)),
        None => with_prefix(s, 0),
    }
}

/// Resolves a unit name.
pub fn parse_unit(s: &str) -> (r: Option<Unit>)
    ensures
        r == spec_parse_unit(s@),
{
    let v = chars_of(s);
    proof {
        assert(v@.skip(0) =~= v@);
    }
    match lookup_base_unit_at(v.as_slice(), 0) {
        Some(UnitInfo::Standard { category, factor }) => {
            return Some(Unit::Standard { category, factor, prefix: None });
        },
        Some(UnitInfo::Temp(t)) => {
            return Some(Unit::Temp(t));
        },
        None => {},
    }
    let mut i: usize = 0;
    while i < PREFIX_COUNT
        invariant
            i <= PREFIX_COUNT,
            v@ == s@,
            spec_parse_unit(s@) == with_prefix(s@, i as int),
        decreases PREFIX_COUNT - i,
    {
        let (p, f) = prefix_at(i);
        match prefix_len(v.as_slice(), 0, p) {
            Some(n) => {
                proof {
                    assert(v@.subrange(0, n as int) =~= v@.take(n as int));
                }
                if n < v.len() {
                    match lookup_base_unit_at(v.as_slice(), n) {
                        Some(UnitInfo::Standard { category, factor }) => {
                            return Some(Unit::Standard { category, factor, prefix: Some(f) });
                        },
                        Some(UnitInfo::Temp(_)) => {
                            return None;
                        },
                        None => {},
                    }
                }
            },
            None => {
                proof {
                    assert(v@.subrange(0, p@.len() as int) =~= v@.take(p@.len() as int));
                }
            },
        }
        i += 1;
    }
    None
}

/// The conversion from unit `from` to unit `to`: `#N/A` when either name
/// is unknown or their categories differ.
pub open spec fn spec_conversion(from: Seq<char>, to: Seq<char>) -> Result<Conversion, CellError> {
    match (spec_parse_unit(from), spec_parse_unit(to)) {
        (Some(a), Some(b)) => if unit_category(a) != unit_category(b) {
            Err(CellError::Na)
        } else {
            match (a, b) {
                (Unit::Temp(x), Unit::Temp(y)) => Ok(Conversion::Temperature { from: x, to: y }),
                (
                    Unit::Standard { factor: f1, prefix: p1, .. },
                    Unit::Standard { factor: f2, prefix: p2, .. },
                ) => Ok(Conversion::Scale { from: Scaled { factor: f1, prefix: p1 }, to: Scaled { factor: f2, prefix: p2 } }),
                _ => Err(CellError::Na),
            }
        },
        _ => Err(CellError::Na),
    }
}

/// Which conversion `CONVERT` applies between two unit names.
pub fn conversion(from: &str, to: &str) -> (r: Result<Conversion, CellError>)
    ensures
        r == spec_conversion(from@, to@),
{
    let a = match parse_unit(from) {
        Some(u) => u,
        None => return Err(CellError::Na),
    };
    let b = match parse_unit(to) {
        Some(u) => u,
        None => return Err(CellError::Na),
    };
    let same = match (a, b) {
        (Unit::Temp(_), Unit::Temp(_)) => true,
        (Unit::Standard { category: c1, .. }, Unit::Standard { category: c2, .. }) => c1 == c2,
        (Unit::Standard { category: c1, .. }, Unit::Temp(_)) => c1 == Category::Temperature,
        (Unit::Temp(_), Unit::Standard { category: c2, .. }) => c2 == Category::Temperature,
    };
    if !same {
        return Err(CellError::Na);
    }
    match (a, b) {
        (Unit::Temp(x), Unit::Temp(y)) => Ok(Conversion::Temperature { from: x, to: y }),
        (Unit::Standard { factor: f1, prefix: p1, .. }, Unit::Standard { factor: f2, prefix: p2, .. }) => Ok(
            Conversion::Scale {
                from: Scaled { factor: f1, prefix: p1 },
                to: Scaled { factor: f2, prefix: p2 },
            },
        ),
        _ => Err(CellError::Na),
    }
}

proof fn lemma_with_prefix_not_temperature(s: Seq<char>, i: int)
    ensures
        !(with_prefix(s, i) matches Some(Unit::Temp(_))),
    decreases PREFIX_COUNT - i,
{
    if 0 <= i < PREFIX_COUNT {
        lemma_with_prefix_not_temperature(s, i + 1);
    }
}

/// A temperature scale is named only by its own name: no prefix applies to
/// it.
pub proof fn law_temperature_takes_no_prefix(s: Seq<char>)
    ensures
        spec_parse_unit(s) matches Some(Unit::Temp(t)) ==> base_unit(s) == Some(UnitInfo::Temp(t)),
{
    lemma_with_prefix_not_temperature(s, 0);
}

/// A factor that is strictly positive: a non-zero mantissa, or a ratio of
/// non-zero integers.
pub open spec fn factor_positive(f: Factor) -> bool {
    match f {
        Factor::Decimal(m, _) => m > 0,
        Factor::Ratio(n, d) => n > 0 && d > 0,
    }
}

/// A base unit converting by a positive factor, outside the temperature
/// category.
pub open spec fn scaled_base(u: Option<UnitInfo>) -> bool {
    u matches Some(UnitInfo::Standard { category, factor }) ==> factor_positive(factor) && category
        != Category::Temperature
}

proof fn lemma_base_units_scaled(s: Seq<char>)
    ensures
        scaled_base(base_units_0(s)),
        scaled_base(base_units_1(s)),
        scaled_base(base_units_2(s)),
        scaled_base(base_units_3(s)),
        scaled_base(base_units_4(s)),
        scaled_base(base_units_5(s)),
        scaled_base(base_units_6(s)),
        scaled_base(base_units_7(s)),
        scaled_base(base_units_8(s)),
{
}

/// Every base unit that converts by a factor has a positive factor and is
/// not a temperature, so a ratio of two factors never divides by zero.
pub proof fn law_base_factors_positive(s: Seq<char>)
    ensures
        scaled_base(base_unit(s)),
{
    lemma_base_units_scaled(s);
}

proof fn lemma_with_prefix_scaled(s: Seq<char>, i: int)
    ensures
        with_prefix(s, i) matches Some(Unit::Standard { category, factor, prefix }) ==> factor_positive(
            factor,
        ) && category != Category::Temperature && (prefix matches Some(p) ==> factor_positive(p)),
    decreases PREFIX_COUNT - i,
{
    if 0 <= i < PREFIX_COUNT {
        let p = prefix_symbol(i);
        law_base_factors_positive(s.skip(p.len() as int));
        assert(factor_positive(prefix_factor(i)));
        lemma_with_prefix_scaled(s, i + 1);
    }
}

/// Every unit that converts by a factor, prefixed or not, has positive
/// factors and is not a temperature.
pub proof fn law_unit_factors_positive(s: Seq<char>)
    ensures
        spec_parse_unit(s) matches Some(Unit::Standard { category, factor, prefix }) ==> factor_positive(
            factor,
        ) && category != Category::Temperature && (prefix matches Some(p) ==> factor_positive(p)),
{
    law_base_factors_positive(s);
    lemma_with_prefix_scaled(s, 0);
}

} // verus!
verus! {

/// The characters of every unit name of the table.
proof fn lemma_unit_names()
    ensures
        "g"@.len() == 1 && "g"@[0] == 'g',
        "sg"@.len() == 2 && "sg"@[0] == 's' && "sg"@[1] == 'g',
        "lbm"@.len() == 3 && "lbm"@[0] == 'l' && "lbm"@[1] == 'b' && "lbm"@[2] == 'm',
        "u"@.len() == 1 && "u"@[0] == 'u',
        "ozm"@.len() == 3 && "ozm"@[0] == 'o' && "ozm"@[1] == 'z' && "ozm"@[2] == 'm',
        "grain"@.len() == 5 && "grain"@[0] == 'g' && "grain"@[1] == 'r' && "grain"@[2] == 'a' && "grain"@[3] == 'i' && "grain"@[4] == 'n',
        "cwt"@.len() == 3 && "cwt"@[0] == 'c' && "cwt"@[1] == 'w' && "cwt"@[2] == 't',
        "shweight"@.len() == 8 && "shweight"@[0] == 's' && "shweight"@[1] == 'h' && "shweight"@[2] == 'w' && "shweight"@[3] == 'e' && "shweight"@[4] == 'i' && "shweight"@[5] == 'g' && "shweight"@[6] == 'h' && "shweight"@[7] == 't',
        "uk_cwt"@.len() == 6 && "uk_cwt"@[0] == 'u' && "uk_cwt"@[1] == 'k' && "uk_cwt"@[2] == '_' && "uk_cwt"@[3] == 'c' && "uk_cwt"@[4] == 'w' && "uk_cwt"@[5] == 't',
        "lcwt"@.len() == 4 && "lcwt"@[0] == 'l' && "lcwt"@[1] == 'c' && "lcwt"@[2] == 'w' && "lcwt"@[3] == 't',
        "hweight"@.len() == 7 && "hweight"@[0] == 'h' && "hweight"@[1] == 'w' && "hweight"@[2] == 'e' && "hweight"@[3] == 'i' && "hweight"@[4] == 'g' && "hweight"@[5] == 'h' && "hweight"@[6] == 't',
        "stone"@.len() == 5 && "stone"@[0] == 's' && "stone"@[1] == 't' && "stone"@[2] == 'o' && "stone"@[3] == 'n' && "stone"@[4] == 'e',
        "ton"@.len() == 3 && "ton"@[0] == 't' && "ton"@[1] == 'o' && "ton"@[2] == 'n',
        "uk_ton"@.len() == 6 && "uk_ton"@[0] == 'u' && "uk_ton"@[1] == 'k' && "uk_ton"@[2] == '_' && "uk_ton"@[3] == 't' && "uk_ton"@[4] == 'o' && "uk_ton"@[5] == 'n',
        "LTON"@.len() == 4 && "LTON"@[0] == 'L' && "LTON"@[1] == 'T' && "LTON"@[2] == 'O' && "LTON"@[3] == 'N',
        "brton"@.len() == 5 && "brton"@[0] == 'b' && "brton"@[1] == 'r' && "brton"@[2] == 't' && "brton"@[3] == 'o' && "brton"@[4] == 'n',
        "m"@.len() == 1 && "m"@[0] == 'm',
        "mi"@.len() == 2 && "mi"@[0] == 'm' && "mi"@[1] == 'i',
        "Nmi"@.len() == 3 && "Nmi"@[0] == 'N' && "Nmi"@[1] == 'm' && "Nmi"@[2] == 'i',
        "in"@.len() == 2 && "in"@[0] == 'i' && "in"@[1] == 'n',
        "ft"@.len() == 2 && "ft"@[0] == 'f' && "ft"@[1] == 't',
        "yd"@.len() == 2 && "yd"@[0] == 'y' && "yd"@[1] == 'd',
        "ang"@.len() == 3 && "ang"@[0] == 'a' && "ang"@[1] == 'n' && "ang"@[2] == 'g',
        "ell"@.len() == 3 && "ell"@[0] == 'e' && "ell"@[1] == 'l' && "ell"@[2] == 'l',
        "ly"@.len() == 2 && "ly"@[0] == 'l' && "ly"@[1] == 'y',
        "parsec"@.len() == 6 && "parsec"@[0] == 'p' && "parsec"@[1] == 'a' && "parsec"@[2] == 'r' && "parsec"@[3] == 's' && "parsec"@[4] == 'e' && "parsec"@[5] == 'c',
        "pc"@.len() == 2 && "pc"@[0] == 'p' && "pc"@[1] == 'c',
        "Picapt"@.len() == 6 && "Picapt"@[0] == 'P' && "Picapt"@[1] == 'i' && "Picapt"@[2] == 'c' && "Picapt"@[3] == 'a' && "Picapt"@[4] == 'p' && "Picapt"@[5] == 't',
        "Pica"@.len() == 4 && "Pica"@[0] == 'P' && "Pica"@[1] == 'i' && "Pica"@[2] == 'c' && "Pica"@[3] == 'a',
        "pica"@.len() == 4 && "pica"@[0] == 'p' && "pica"@[1] == 'i' && "pica"@[2] == 'c' && "pica"@[3] == 'a',
        "survey_mi"@.len() == 9 && "survey_mi"@[0] == 's' && "survey_mi"@[1] == 'u' && "survey_mi"@[2] == 'r' && "survey_mi"@[3] == 'v' && "survey_mi"@[4] == 'e' && "survey_mi"@[5] == 'y' && "survey_mi"@[6] == '_' && "survey_mi"@[7] == 'm' && "survey_mi"@[8] == 'i',
        "yr"@.len() == 2 && "yr"@[0] == 'y' && "yr"@[1] == 'r',
        "day"@.len() == 3 && "day"@[0] == 'd' && "day"@[1] == 'a' && "day"@[2] == 'y',
        "hr"@.len() == 2 && "hr"@[0] == 'h' && "hr"@[1] == 'r',
        "mn"@.len() == 2 && "mn"@[0] == 'm' && "mn"@[1] == 'n',
        "sec"@.len() == 3 && "sec"@[0] == 's' && "sec"@[1] == 'e' && "sec"@[2] == 'c',
        "Pa"@.len() == 2 && "Pa"@[0] == 'P' && "Pa"@[1] == 'a',
        "p"@.len() == 1 && "p"@[0] == 'p',
        "atm"@.len() == 3 && "atm"@[0] == 'a' && "atm"@[1] == 't' && "atm"@[2] == 'm',
        "at"@.len() == 2 && "at"@[0] == 'a' && "at"@[1] == 't',
        "mmHg"@.len() == 4 && "mmHg"@[0] == 'm' && "mmHg"@[1] == 'm' && "mmHg"@[2] == 'H' && "mmHg"@[3] == 'g',
        "psi"@.len() == 3 && "psi"@[0] == 'p' && "psi"@[1] == 's' && "psi"@[2] == 'i',
        "Torr"@.len() == 4 && "Torr"@[0] == 'T' && "Torr"@[1] == 'o' && "Torr"@[2] == 'r' && "Torr"@[3] == 'r',
        "N"@.len() == 1 && "N"@[0] == 'N',
        "dyn"@.len() == 3 && "dyn"@[0] == 'd' && "dyn"@[1] == 'y' && "dyn"@[2] == 'n',
        "dy"@.len() == 2 && "dy"@[0] == 'd' && "dy"@[1] == 'y',
        "lbf"@.len() == 3 && "lbf"@[0] == 'l' && "lbf"@[1] == 'b' && "lbf"@[2] == 'f',
        "pond"@.len() == 4 && "pond"@[0] == 'p' && "pond"@[1] == 'o' && "pond"@[2] == 'n' && "pond"@[3] == 'd',
        "J"@.len() == 1 && "J"@[0] == 'J',
        "eV"@.len() == 2 && "eV"@[0] == 'e' && "eV"@[1] == 'V',
        "ev"@.len() == 2 && "ev"@[0] == 'e' && "ev"@[1] == 'v',
        "cal"@.len() == 3 && "cal"@[0] == 'c' && "cal"@[1] == 'a' && "cal"@[2] == 'l',
        "c"@.len() == 1 && "c"@[0] == 'c',
        "BTU"@.len() == 3 && "BTU"@[0] == 'B' && "BTU"@[1] == 'T' && "BTU"@[2] == 'U',
        "btu"@.len() == 3 && "btu"@[0] == 'b' && "btu"@[1] == 't' && "btu"@[2] == 'u',
        "HPh"@.len() == 3 && "HPh"@[0] == 'H' && "HPh"@[1] == 'P' && "HPh"@[2] == 'h',
        "hh"@.len() == 2 && "hh"@[0] == 'h' && "hh"@[1] == 'h',
        "Wh"@.len() == 2 && "Wh"@[0] == 'W' && "Wh"@[1] == 'h',
        "wh"@.len() == 2 && "wh"@[0] == 'w' && "wh"@[1] == 'h',
        "flb"@.len() == 3 && "flb"@[0] == 'f' && "flb"@[1] == 'l' && "flb"@[2] == 'b',
        "W"@.len() == 1 && "W"@[0] == 'W',
        "w"@.len() == 1 && "w"@[0] == 'w',
        "HP"@.len() == 2 && "HP"@[0] == 'H' && "HP"@[1] == 'P',
        "h"@.len() == 1 && "h"@[0] == 'h',
        "PS"@.len() == 2 && "PS"@[0] == 'P' && "PS"@[1] == 'S',
        "T"@.len() == 1 && "T"@[0] == 'T',
        "ga"@.len() == 2 && "ga"@[0] == 'g' && "ga"@[1] == 'a',
        "C"@.len() == 1 && "C"@[0] == 'C',
        "cel"@.len() == 3 && "cel"@[0] == 'c' && "cel"@[1] == 'e' && "cel"@[2] == 'l',
        "F"@.len() == 1 && "F"@[0] == 'F',
        "fah"@.len() == 3 && "fah"@[0] == 'f' && "fah"@[1] == 'a' && "fah"@[2] == 'h',
        "K"@.len() == 1 && "K"@[0] == 'K',
        "kel"@.len() == 3 && "kel"@[0] == 'k' && "kel"@[1] == 'e' && "kel"@[2] == 'l',
        "Rank"@.len() == 4 && "Rank"@[0] == 'R' && "Rank"@[1] == 'a' && "Rank"@[2] == 'n' && "Rank"@[3] == 'k',
        "Reau"@.len() == 4 && "Reau"@[0] == 'R' && "Reau"@[1] == 'e' && "Reau"@[2] == 'a' && "Reau"@[3] == 'u',
        "tsp"@.len() == 3 && "tsp"@[0] == 't' && "tsp"@[1] == 's' && "tsp"@[2] == 'p',
        "tspm"@.len() == 4 && "tspm"@[0] == 't' && "tspm"@[1] == 's' && "tspm"@[2] == 'p' && "tspm"@[3] == 'm',
        "tbs"@.len() == 3 && "tbs"@[0] == 't' && "tbs"@[1] == 'b' && "tbs"@[2] == 's',
        "oz"@.len() == 2 && "oz"@[0] == 'o' && "oz"@[1] == 'z',
        "cup"@.len() == 3 && "cup"@[0] == 'c' && "cup"@[1] == 'u' && "cup"@[2] == 'p',
        "pt"@.len() == 2 && "pt"@[0] == 'p' && "pt"@[1] == 't',
        "us_pt"@.len() == 5 && "us_pt"@[0] == 'u' && "us_pt"@[1] == 's' && "us_pt"@[2] == '_' && "us_pt"@[3] == 'p' && "us_pt"@[4] == 't',
        "uk_pt"@.len() == 5 && "uk_pt"@[0] == 'u' && "uk_pt"@[1] == 'k' && "uk_pt"@[2] == '_' && "uk_pt"@[3] == 'p' && "uk_pt"@[4] == 't',
        "qt"@.len() == 2 && "qt"@[0] == 'q' && "qt"@[1] == 't',
        "uk_qt"@.len() == 5 && "uk_qt"@[0] == 'u' && "uk_qt"@[1] == 'k' && "uk_qt"@[2] == '_' && "uk_qt"@[3] == 'q' && "uk_qt"@[4] == 't',
        "gal"@.len() == 3 && "gal"@[0] == 'g' && "gal"@[1] == 'a' && "gal"@[2] == 'l',
        "uk_gal"@.len() == 6 && "uk_gal"@[0] == 'u' && "uk_gal"@[1] == 'k' && "uk_gal"@[2] == '_' && "uk_gal"@[3] == 'g' && "uk_gal"@[4] == 'a' && "uk_gal"@[5] == 'l',
        "l"@.len() == 1 && "l"@[0] == 'l',
        "L"@.len() == 1 && "L"@[0] == 'L',
        "lt"@.len() == 2 && "lt"@[0] == 'l' && "lt"@[1] == 't',
        "ang3"@.len() == 4 && "ang3"@[0] == 'a' && "ang3"@[1] == 'n' && "ang3"@[2] == 'g' && "ang3"@[3] == '3',
        "ang^3"@.len() == 5 && "ang^3"@[0] == 'a' && "ang^3"@[1] == 'n' && "ang^3"@[2] == 'g' && "ang^3"@[3] == '^' && "ang^3"@[4] == '3',
        "barrel"@.len() == 6 && "barrel"@[0] == 'b' && "barrel"@[1] == 'a' && "barrel"@[2] == 'r' && "barrel"@[3] == 'r' && "barrel"@[4] == 'e' && "barrel"@[5] == 'l',
        "bushel"@.len() == 6 && "bushel"@[0] == 'b' && "bushel"@[1] == 'u' && "bushel"@[2] == 's' && "bushel"@[3] == 'h' && "bushel"@[4] == 'e' && "bushel"@[5] == 'l',
        "ft3"@.len() == 3 && "ft3"@[0] == 'f' && "ft3"@[1] == 't' && "ft3"@[2] == '3',
        "ft^3"@.len() == 4 && "ft^3"@[0] == 'f' && "ft^3"@[1] == 't' && "ft^3"@[2] == '^' && "ft^3"@[3] == '3',
        "in3"@.len() == 3 && "in3"@[0] == 'i' && "in3"@[1] == 'n' && "in3"@[2] == '3',
        "in^3"@.len() == 4 && "in^3"@[0] == 'i' && "in^3"@[1] == 'n' && "in^3"@[2] == '^' && "in^3"@[3] == '3',
        "ly3"@.len() == 3 && "ly3"@[0] == 'l' && "ly3"@[1] == 'y' && "ly3"@[2] == '3',
        "ly^3"@.len() == 4 && "ly^3"@[0] == 'l' && "ly^3"@[1] == 'y' && "ly^3"@[2] == '^' && "ly^3"@[3] == '3',
        "m3"@.len() == 2 && "m3"@[0] == 'm' && "m3"@[1] == '3',
        "m^3"@.len() == 3 && "m^3"@[0] == 'm' && "m^3"@[1] == '^' && "m^3"@[2] == '3',
        "mi3"@.len() == 3 && "mi3"@[0] == 'm' && "mi3"@[1] == 'i' && "mi3"@[2] == '3',
        "mi^3"@.len() == 4 && "mi^3"@[0] == 'm' && "mi^3"@[1] == 'i' && "mi^3"@[2] == '^' && "mi^3"@[3] == '3',
        "yd3"@.len() == 3 && "yd3"@[0] == 'y' && "yd3"@[1] == 'd' && "yd3"@[2] == '3',
        "yd^3"@.len() == 4 && "yd^3"@[0] == 'y' && "yd^3"@[1] == 'd' && "yd^3"@[2] == '^' && "yd^3"@[3] == '3',
        "Nmi3"@.len() == 4 && "Nmi3"@[0] == 'N' && "Nmi3"@[1] == 'm' && "Nmi3"@[2] == 'i' && "Nmi3"@[3] == '3',
        "Nmi^3"@.len() == 5 && "Nmi^3"@[0] == 'N' && "Nmi^3"@[1] == 'm' && "Nmi^3"@[2] == 'i' && "Nmi^3"@[3] == '^' && "Nmi^3"@[4] == '3',
        "Picapt3"@.len() == 7 && "Picapt3"@[0] == 'P' && "Picapt3"@[1] == 'i' && "Picapt3"@[2] == 'c' && "Picapt3"@[3] == 'a' && "Picapt3"@[4] == 'p' && "Picapt3"@[5] == 't' && "Picapt3"@[6] == '3',
        "Picapt^3"@.len() == 8 && "Picapt^3"@[0] == 'P' && "Picapt^3"@[1] == 'i' && "Picapt^3"@[2] == 'c' && "Picapt^3"@[3] == 'a' && "Picapt^3"@[4] == 'p' && "Picapt^3"@[5] == 't' && "Picapt^3"@[6] == '^' && "Picapt^3"@[7] == '3',
        "GRT"@.len() == 3 && "GRT"@[0] == 'G' && "GRT"@[1] == 'R' && "GRT"@[2] == 'T',
        "regton"@.len() == 6 && "regton"@[0] == 'r' && "regton"@[1] == 'e' && "regton"@[2] == 'g' && "regton"@[3] == 't' && "regton"@[4] == 'o' && "regton"@[5] == 'n',
        "MTON"@.len() == 4 && "MTON"@[0] == 'M' && "MTON"@[1] == 'T' && "MTON"@[2] == 'O' && "MTON"@[3] == 'N',
        "uk_acre"@.len() == 7 && "uk_acre"@[0] == 'u' && "uk_acre"@[1] == 'k' && "uk_acre"@[2] == '_' && "uk_acre"@[3] == 'a' && "uk_acre"@[4] == 'c' && "uk_acre"@[5] == 'r' && "uk_acre"@[6] == 'e',
        "us_acre"@.len() == 7 && "us_acre"@[0] == 'u' && "us_acre"@[1] == 's' && "us_acre"@[2] == '_' && "us_acre"@[3] == 'a' && "us_acre"@[4] == 'c' && "us_acre"@[5] == 'r' && "us_acre"@[6] == 'e',
        "ang2"@.len() == 4 && "ang2"@[0] == 'a' && "ang2"@[1] == 'n' && "ang2"@[2] == 'g' && "ang2"@[3] == '2',
        "ang^2"@.len() == 5 && "ang^2"@[0] == 'a' && "ang^2"@[1] == 'n' && "ang^2"@[2] == 'g' && "ang^2"@[3] == '^' && "ang^2"@[4] == '2',
        "ar"@.len() == 2 && "ar"@[0] == 'a' && "ar"@[1] == 'r',
        "ft2"@.len() == 3 && "ft2"@[0] == 'f' && "ft2"@[1] == 't' && "ft2"@[2] == '2',
        "ft^2"@.len() == 4 && "ft^2"@[0] == 'f' && "ft^2"@[1] == 't' && "ft^2"@[2] == '^' && "ft^2"@[3] == '2',
        "ha"@.len() == 2 && "ha"@[0] == 'h' && "ha"@[1] == 'a',
        "in2"@.len() == 3 && "in2"@[0] == 'i' && "in2"@[1] == 'n' && "in2"@[2] == '2',
        "in^2"@.len() == 4 && "in^2"@[0] == 'i' && "in^2"@[1] == 'n' && "in^2"@[2] == '^' && "in^2"@[3] == '2',
        "ly2"@.len() == 3 && "ly2"@[0] == 'l' && "ly2"@[1] == 'y' && "ly2"@[2] == '2',
        "ly^2"@.len() == 4 && "ly^2"@[0] == 'l' && "ly^2"@[1] == 'y' && "ly^2"@[2] == '^' && "ly^2"@[3] == '2',
        "m2"@.len() == 2 && "m2"@[0] == 'm' && "m2"@[1] == '2',
        "m^2"@.len() == 3 && "m^2"@[0] == 'm' && "m^2"@[1] == '^' && "m^2"@[2] == '2',
        "Morgen"@.len() == 6 && "Morgen"@[0] == 'M' && "Morgen"@[1] == 'o' && "Morgen"@[2] == 'r' && "Morgen"@[3] == 'g' && "Morgen"@[4] == 'e' && "Morgen"@[5] == 'n',
        "mi2"@.len() == 3 && "mi2"@[0] == 'm' && "mi2"@[1] == 'i' && "mi2"@[2] == '2',
        "mi^2"@.len() == 4 && "mi^2"@[0] == 'm' && "mi^2"@[1] == 'i' && "mi^2"@[2] == '^' && "mi^2"@[3] == '2',
        "Nmi2"@.len() == 4 && "Nmi2"@[0] == 'N' && "Nmi2"@[1] == 'm' && "Nmi2"@[2] == 'i' && "Nmi2"@[3] == '2',
        "Nmi^2"@.len() == 5 && "Nmi^2"@[0] == 'N' && "Nmi^2"@[1] == 'm' && "Nmi^2"@[2] == 'i' && "Nmi^2"@[3] == '^' && "Nmi^2"@[4] == '2',
        "Picapt2"@.len() == 7 && "Picapt2"@[0] == 'P' && "Picapt2"@[1] == 'i' && "Picapt2"@[2] == 'c' && "Picapt2"@[3] == 'a' && "Picapt2"@[4] == 'p' && "Picapt2"@[5] == 't' && "Picapt2"@[6] == '2',
        "Picapt^2"@.len() == 8 && "Picapt^2"@[0] == 'P' && "Picapt^2"@[1] == 'i' && "Picapt^2"@[2] == 'c' && "Picapt^2"@[3] == 'a' && "Picapt^2"@[4] == 'p' && "Picapt^2"@[5] == 't' && "Picapt^2"@[6] == '^' && "Picapt^2"@[7] == '2',
        "yd2"@.len() == 3 && "yd2"@[0] == 'y' && "yd2"@[1] == 'd' && "yd2"@[2] == '2',
        "yd^2"@.len() == 4 && "yd^2"@[0] == 'y' && "yd^2"@[1] == 'd' && "yd^2"@[2] == '^' && "yd^2"@[3] == '2',
        "admkn"@.len() == 5 && "admkn"@[0] == 'a' && "admkn"@[1] == 'd' && "admkn"@[2] == 'm' && "admkn"@[3] == 'k' && "admkn"@[4] == 'n',
        "kn"@.len() == 2 && "kn"@[0] == 'k' && "kn"@[1] == 'n',
        "m/h"@.len() == 3 && "m/h"@[0] == 'm' && "m/h"@[1] == '/' && "m/h"@[2] == 'h',
        "m/hr"@.len() == 4 && "m/hr"@[0] == 'm' && "m/hr"@[1] == '/' && "m/hr"@[2] == 'h' && "m/hr"@[3] == 'r',
        "m/s"@.len() == 3 && "m/s"@[0] == 'm' && "m/s"@[1] == '/' && "m/s"@[2] == 's',
        "m/sec"@.len() == 5 && "m/sec"@[0] == 'm' && "m/sec"@[1] == '/' && "m/sec"@[2] == 's' && "m/sec"@[3] == 'e' && "m/sec"@[4] == 'c',
        "mph"@.len() == 3 && "mph"@[0] == 'm' && "mph"@[1] == 'p' && "mph"@[2] == 'h',
        "bit"@.len() == 3 && "bit"@[0] == 'b' && "bit"@[1] == 'i' && "bit"@[2] == 't',
        "byte"@.len() == 4 && "byte"@[0] == 'b' && "byte"@[1] == 'y' && "byte"@[2] == 't' && "byte"@[3] == 'e',
{
    reveal_strlit("g");
    reveal_strlit("sg");
    reveal_strlit("lbm");
    reveal_strlit("u");
    reveal_strlit("ozm");
    reveal_strlit("grain");
    reveal_strlit("cwt");
    reveal_strlit("shweight");
    reveal_strlit("uk_cwt");
    reveal_strlit("lcwt");
    reveal_strlit("hweight");
    reveal_strlit("stone");
    reveal_strlit("ton");
    reveal_strlit("uk_ton");
    reveal_strlit("LTON");
    reveal_strlit("brton");
    reveal_strlit("m");
    reveal_strlit("mi");
    reveal_strlit("Nmi");
    reveal_strlit("in");
    reveal_strlit("ft");
    reveal_strlit("yd");
    reveal_strlit("ang");
    reveal_strlit("ell");
    reveal_strlit("ly");
    reveal_strlit("parsec");
    reveal_strlit("pc");
    reveal_strlit("Picapt");
    reveal_strlit("Pica");
    reveal_strlit("pica");
    reveal_strlit("survey_mi");
    reveal_strlit("yr");
    reveal_strlit("day");
    reveal_strlit("hr");
    reveal_strlit("mn");
    reveal_strlit("sec");
    reveal_strlit("Pa");
    reveal_strlit("p");
    reveal_strlit("atm");
    reveal_strlit("at");
    reveal_strlit("mmHg");
    reveal_strlit("psi");
    reveal_strlit("Torr");
    reveal_strlit("N");
    reveal_strlit("dyn");
    reveal_strlit("dy");
    reveal_strlit("lbf");
    reveal_strlit("pond");
    reveal_strlit("J");
    reveal_strlit("eV");
    reveal_strlit("ev");
    reveal_strlit("cal");
    reveal_strlit("c");
    reveal_strlit("BTU");
    reveal_strlit("btu");
    reveal_strlit("HPh");
    reveal_strlit("hh");
    reveal_strlit("Wh");
    reveal_strlit("wh");
    reveal_strlit("flb");
    reveal_strlit("W");
    reveal_strlit("w");
    reveal_strlit("HP");
    reveal_strlit("h");
    reveal_strlit("PS");
    reveal_strlit("T");
    reveal_strlit("ga");
    reveal_strlit("C");
    reveal_strlit("cel");
    reveal_strlit("F");
    reveal_strlit("fah");
    reveal_strlit("K");
    reveal_strlit("kel");
    reveal_strlit("Rank");
    reveal_strlit("Reau");
    reveal_strlit("tsp");
    reveal_strlit("tspm");
    reveal_strlit("tbs");
    reveal_strlit("oz");
    reveal_strlit("cup");
    reveal_strlit("pt");
    reveal_strlit("us_pt");
    reveal_strlit("uk_pt");
    reveal_strlit("qt");
    reveal_strlit("uk_qt");
    reveal_strlit("gal");
    reveal_strlit("uk_gal");
    reveal_strlit("l");
    reveal_strlit("L");
    reveal_strlit("lt");
    reveal_strlit("ang3");
    reveal_strlit("ang^3");
    reveal_strlit("barrel");
    reveal_strlit("bushel");
    reveal_strlit("ft3");
    reveal_strlit("ft^3");
    reveal_strlit("in3");
    reveal_strlit("in^3");
    reveal_strlit("ly3");
    reveal_strlit("ly^3");
    reveal_strlit("m3");
    reveal_strlit("m^3");
    reveal_strlit("mi3");
    reveal_strlit("mi^3");
    reveal_strlit("yd3");
    reveal_strlit("yd^3");
    reveal_strlit("Nmi3");
    reveal_strlit("Nmi^3");
    reveal_strlit("Picapt3");
    reveal_strlit("Picapt^3");
    reveal_strlit("GRT");
    reveal_strlit("regton");
    reveal_strlit("MTON");
    reveal_strlit("uk_acre");
    reveal_strlit("us_acre");
    reveal_strlit("ang2");
    reveal_strlit("ang^2");
    reveal_strlit("ar");
    reveal_strlit("ft2");
    reveal_strlit("ft^2");
    reveal_strlit("ha");
    reveal_strlit("in2");
    reveal_strlit("in^2");
    reveal_strlit("ly2");
    reveal_strlit("ly^2");
    reveal_strlit("m2");
    reveal_strlit("m^2");
    reveal_strlit("Morgen");
    reveal_strlit("mi2");
    reveal_strlit("mi^2");
    reveal_strlit("Nmi2");
    reveal_strlit("Nmi^2");
    reveal_strlit("Picapt2");
    reveal_strlit("Picapt^2");
    reveal_strlit("yd2");
    reveal_strlit("yd^2");
    reveal_strlit("admkn");
    reveal_strlit("kn");
    reveal_strlit("m/h");
    reveal_strlit("m/hr");
    reveal_strlit("m/s");
    reveal_strlit("m/sec");
    reveal_strlit("mph");
    reveal_strlit("bit");
    reveal_strlit("byte");
}


/// `10^e`.
pub open spec fn pow10(e: nat) -> nat
    decreases e,
{
    if e == 0 {
        1
    } else {
        10 * pow10((e - 1) as nat)
    }
}

/// The numerator of a factor as a fraction.
pub open spec fn factor_num(f: Factor) -> int {
    match f {
        Factor::Decimal(m, e) => if e >= 0 {
            m * pow10(e as nat)
        } else {
            m as int
        },
        Factor::Ratio(n, _) => n as int,
    }
}

/// The denominator of a factor as a fraction.
pub open spec fn factor_den(f: Factor) -> int {
    match f {
        Factor::Decimal(_, e) => if e >= 0 {
            1
        } else {
            pow10((-e) as nat) as int
        },
        Factor::Ratio(_, d) => d as int,
    }
}

/// `a` names a unit of `cat` worth exactly `num / den` of the category's
/// base unit.
pub open spec fn unit_worth(a: Seq<char>, cat: Category, num: int, den: int) -> bool {
    match base_unit(a) {
        Some(UnitInfo::Standard { category, factor }) => category == cat && factor_num(factor) * den
            == num * factor_den(factor),
        _ => false,
    }
}

/// `a` and `b` name units of the same category, and `a` is exactly
/// `num / den` times `b`.
pub open spec fn unit_times(a: Seq<char>, b: Seq<char>, num: int, den: int) -> bool {
    match (base_unit(a), base_unit(b)) {
        (
            Some(UnitInfo::Standard { category: ca, factor: fa }),
            Some(UnitInfo::Standard { category: cb, factor: fb }),
        ) => ca == cb && factor_num(fa) * factor_den(fb) * den == num * factor_num(fb) * factor_den(
            fa,
        ),
        _ => false,
    }
}

/// The powers of ten up to `10^36`.
proof fn lemma_pow10_values()
    ensures
        pow10(0) == 1,
        pow10(1) == 10,
        pow10(2) == 100,
        pow10(3) == 1000,
        pow10(4) == 10000,
        pow10(5) == 100000,
        pow10(6) == 1000000,
        pow10(7) == 10000000,
        pow10(8) == 100000000,
        pow10(9) == 1000000000,
        pow10(10) == 10000000000,
        pow10(11) == 100000000000,
        pow10(12) == 1000000000000,
        pow10(13) == 10000000000000,
        pow10(14) == 100000000000000,
        pow10(15) == 1000000000000000,
        pow10(16) == 10000000000000000,
        pow10(17) == 100000000000000000,
        pow10(18) == 1000000000000000000,
        pow10(19) == 10000000000000000000,
        pow10(20) == 100000000000000000000,
        pow10(21) == 1000000000000000000000,
        pow10(22) == 10000000000000000000000,
        pow10(23) == 100000000000000000000000,
        pow10(24) == 1000000000000000000000000,
        pow10(25) == 10000000000000000000000000,
        pow10(26) == 100000000000000000000000000,
        pow10(27) == 1000000000000000000000000000,
        pow10(28) == 10000000000000000000000000000,
        pow10(29) == 100000000000000000000000000000,
        pow10(30) == 1000000000000000000000000000000,
        pow10(31) == 10000000000000000000000000000000,
        pow10(32) == 100000000000000000000000000000000,
        pow10(33) == 1000000000000000000000000000000000,
        pow10(34) == 10000000000000000000000000000000000,
        pow10(35) == 100000000000000000000000000000000000,
        pow10(36) == 1000000000000000000000000000000000000,
{
    assert(pow10(0) == 1);
    assert(pow10(1) == 10);
    assert(pow10(2) == 100);
    assert(pow10(3) == 1000);
    assert(pow10(4) == 10000);
    assert(pow10(5) == 100000);
    assert(pow10(6) == 1000000);
    assert(pow10(7) == 10000000);
    assert(pow10(8) == 100000000);
    assert(pow10(9) == 1000000000);
    assert(pow10(10) == 10000000000);
    assert(pow10(11) == 100000000000);
    assert(pow10(12) == 1000000000000);
    assert(pow10(13) == 10000000000000);
    assert(pow10(14) == 100000000000000);
    assert(pow10(15) == 1000000000000000);
    assert(pow10(16) == 10000000000000000);
    assert(pow10(17) == 100000000000000000);
    assert(pow10(18) == 1000000000000000000);
    assert(pow10(19) == 10000000000000000000);
    assert(pow10(20) == 100000000000000000000);
    assert(pow10(21) == 1000000000000000000000);
    assert(pow10(22) == 10000000000000000000000);
    assert(pow10(23) == 100000000000000000000000);
    assert(pow10(24) == 1000000000000000000000000);
    assert(pow10(25) == 10000000000000000000000000);
    assert(pow10(26) == 100000000000000000000000000);
    assert(pow10(27) == 1000000000000000000000000000);
    assert(pow10(28) == 10000000000000000000000000000);
    assert(pow10(29) == 100000000000000000000000000000);
    assert(pow10(30) == 1000000000000000000000000000000);
    assert(pow10(31) == 10000000000000000000000000000000);
    assert(pow10(32) == 100000000000000000000000000000000);
    assert(pow10(33) == 1000000000000000000000000000000000);
    assert(pow10(34) == 10000000000000000000000000000000000);
    assert(pow10(35) == 100000000000000000000000000000000000);
    assert(pow10(36) == 1000000000000000000000000000000000000);
}

/// Units of length agree with their definitions: the metre is the base, an
/// inch is exactly 0.0254 m, a foot 12 inches, a yard 3 feet (36 inches), a
/// mile 1760 yards, an ell 45 inches, a nautical mile 1852 m, and an
/// ångström 10^-10 m.
pub proof fn law_length_units()
    ensures
        unit_worth("m"@, Category::Distance, 1, 1),
        unit_worth("in"@, Category::Distance, 254, 10000),
        unit_times("ft"@, "in"@, 12, 1),
        unit_times("yd"@, "ft"@, 3, 1),
        unit_times("yd"@, "in"@, 36, 1),
        unit_times("mi"@, "yd"@, 1760, 1),
        unit_times("ell"@, "in"@, 45, 1),
        unit_worth("Nmi"@, Category::Distance, 1852, 1),
        unit_worth("ang"@, Category::Distance, 1, 10000000000),
{
    lemma_unit_names();
    lemma_pow10_values();
    assert(base_unit("Nmi"@) == Some(UnitInfo::Standard { category: Category::Distance, factor: Factor::Decimal(1852, 0) }));
    assert(factor_num(Factor::Decimal(1852, 0)) == 1852 && factor_den(Factor::Decimal(1852, 0)) == 1);
    assert(base_unit("ang"@) == Some(UnitInfo::Standard { category: Category::Distance, factor: Factor::Decimal(1, ((-10) as i32)) }));
    assert(factor_num(Factor::Decimal(1, ((-10) as i32))) == 1 && factor_den(Factor::Decimal(1, ((-10) as i32))) == 10000000000);
    assert(base_unit("ell"@) == Some(UnitInfo::Standard { category: Category::Distance, factor: Factor::Decimal(1143, ((-3) as i32)) }));
    assert(factor_num(Factor::Decimal(1143, ((-3) as i32))) == 1143 && factor_den(Factor::Decimal(1143, ((-3) as i32))) == 1000);
    assert(base_unit("ft"@) == Some(UnitInfo::Standard { category: Category::Distance, factor: Factor::Decimal(3048, ((-4) as i32)) }));
    assert(factor_num(Factor::Decimal(3048, ((-4) as i32))) == 3048 && factor_den(Factor::Decimal(3048, ((-4) as i32))) == 10000);
    assert(base_unit("in"@) == Some(UnitInfo::Standard { category: Category::Distance, factor: Factor::Decimal(254, ((-4) as i32)) }));
    assert(factor_num(Factor::Decimal(254, ((-4) as i32))) == 254 && factor_den(Factor::Decimal(254, ((-4) as i32))) == 10000);
    assert(base_unit("m"@) == Some(UnitInfo::Standard { category: Category::Distance, factor: Factor::Decimal(1, 0) }));
    assert(factor_num(Factor::Decimal(1, 0)) == 1 && factor_den(Factor::Decimal(1, 0)) == 1);
    assert(base_unit("mi"@) == Some(UnitInfo::Standard { category: Category::Distance, factor: Factor::Decimal(1609344, ((-3) as i32)) }));
    assert(factor_num(Factor::Decimal(1609344, ((-3) as i32))) == 1609344 && factor_den(Factor::Decimal(1609344, ((-3) as i32))) == 1000);
    assert(base_unit("yd"@) == Some(UnitInfo::Standard { category: Category::Distance, factor: Factor::Decimal(9144, ((-4) as i32)) }));
    assert(factor_num(Factor::Decimal(9144, ((-4) as i32))) == 9144 && factor_den(Factor::Decimal(9144, ((-4) as i32))) == 10000);
}

/// Units of mass agree with their definitions: a gram is 1/1000 of the base
/// kilogram, a pound exactly 0.45359237 kg, an ounce 1/16 pound, a grain
/// 1/7000 pound, a stone 14 pounds, a hundredweight 100 pounds (112 for the
/// long one), and a ton 2000 pounds (2240 for the long one).
pub proof fn law_weight_units()
    ensures
        unit_worth("g"@, Category::Weight, 1, 1000),
        unit_worth("lbm"@, Category::Weight, 45359237, 100000000),
        unit_times("ozm"@, "lbm"@, 1, 16),
        unit_times("grain"@, "lbm"@, 1, 7000),
        unit_times("stone"@, "lbm"@, 14, 1),
        unit_times("cwt"@, "lbm"@, 100, 1),
        unit_times("shweight"@, "lbm"@, 100, 1),
        unit_times("uk_cwt"@, "lbm"@, 112, 1),
        unit_times("lcwt"@, "lbm"@, 112, 1),
        unit_times("hweight"@, "lbm"@, 112, 1),
        unit_times("ton"@, "lbm"@, 2000, 1),
        unit_times("uk_ton"@, "lbm"@, 2240, 1),
        unit_times("LTON"@, "lbm"@, 2240, 1),
        unit_times("brton"@, "lbm"@, 2240, 1),
{
    lemma_unit_names();
    lemma_pow10_values();
    assert(base_unit("LTON"@) == Some(UnitInfo::Standard { category: Category::Weight, factor: Factor::Decimal(10160469088, ((-7) as i32)) }));
    assert(factor_num(Factor::Decimal(10160469088, ((-7) as i32))) == 10160469088 && factor_den(Factor::Decimal(10160469088, ((-7) as i32))) == 10000000);
    assert(base_unit("brton"@) == Some(UnitInfo::Standard { category: Category::Weight, factor: Factor::Decimal(10160469088, ((-7) as i32)) }));
    assert(factor_num(Factor::Decimal(10160469088, ((-7) as i32))) == 10160469088 && factor_den(Factor::Decimal(10160469088, ((-7) as i32))) == 10000000);
    assert(base_unit("cwt"@) == Some(UnitInfo::Standard { category: Category::Weight, factor: Factor::Decimal(45359237, ((-6) as i32)) }));
    assert(factor_num(Factor::Decimal(45359237, ((-6) as i32))) == 45359237 && factor_den(Factor::Decimal(45359237, ((-6) as i32))) == 1000000);
    assert(base_unit("g"@) == Some(UnitInfo::Standard { category: Category::Weight, factor: Factor::Decimal(1, ((-3) as i32)) }));
    assert(factor_num(Factor::Decimal(1, ((-3) as i32))) == 1 && factor_den(Factor::Decimal(1, ((-3) as i32))) == 1000);
    assert(base_unit("grain"@) == Some(UnitInfo::Standard { category: Category::Weight, factor: Factor::Decimal(6479891, ((-11) as i32)) }));
    assert(factor_num(Factor::Decimal(6479891, ((-11) as i32))) == 6479891 && factor_den(Factor::Decimal(6479891, ((-11) as i32))) == 100000000000);
    assert(base_unit("hweight"@) == Some(UnitInfo::Standard { category: Category::Weight, factor: Factor::Decimal(5080234544, ((-8) as i32)) }));
    assert(factor_num(Factor::Decimal(5080234544, ((-8) as i32))) == 5080234544 && factor_den(Factor::Decimal(5080234544, ((-8) as i32))) == 100000000);
    assert(base_unit("lbm"@) == Some(UnitInfo::Standard { category: Category::Weight, factor: Factor::Decimal(45359237, ((-8) as i32)) }));
    assert(factor_num(Factor::Decimal(45359237, ((-8) as i32))) == 45359237 && factor_den(Factor::Decimal(45359237, ((-8) as i32))) == 100000000);
    assert(base_unit("lcwt"@) == Some(UnitInfo::Standard { category: Category::Weight, factor: Factor::Decimal(5080234544, ((-8) as i32)) }));
    assert(factor_num(Factor::Decimal(5080234544, ((-8) as i32))) == 5080234544 && factor_den(Factor::Decimal(5080234544, ((-8) as i32))) == 100000000);
    assert(base_unit("ozm"@) == Some(UnitInfo::Standard { category: Category::Weight, factor: Factor::Decimal(28349523125, ((-12) as i32)) }));
    assert(factor_num(Factor::Decimal(28349523125, ((-12) as i32))) == 28349523125 && factor_den(Factor::Decimal(28349523125, ((-12) as i32))) == 1000000000000);
    assert(base_unit("shweight"@) == Some(UnitInfo::Standard { category: Category::Weight, factor: Factor::Decimal(45359237, ((-6) as i32)) }));
    assert(factor_num(Factor::Decimal(45359237, ((-6) as i32))) == 45359237 && factor_den(Factor::Decimal(45359237, ((-6) as i32))) == 1000000);
    assert(base_unit("stone"@) == Some(UnitInfo::Standard { category: Category::Weight, factor: Factor::Decimal(635029318, ((-8) as i32)) }));
    assert(factor_num(Factor::Decimal(635029318, ((-8) as i32))) == 635029318 && factor_den(Factor::Decimal(635029318, ((-8) as i32))) == 100000000);
    assert(base_unit("ton"@) == Some(UnitInfo::Standard { category: Category::Weight, factor: Factor::Decimal(90718474, ((-5) as i32)) }));
    assert(factor_num(Factor::Decimal(90718474, ((-5) as i32))) == 90718474 && factor_den(Factor::Decimal(90718474, ((-5) as i32))) == 100000);
    assert(base_unit("uk_cwt"@) == Some(UnitInfo::Standard { category: Category::Weight, factor: Factor::Decimal(5080234544, ((-8) as i32)) }));
    assert(factor_num(Factor::Decimal(5080234544, ((-8) as i32))) == 5080234544 && factor_den(Factor::Decimal(5080234544, ((-8) as i32))) == 100000000);
    assert(base_unit("uk_ton"@) == Some(UnitInfo::Standard { category: Category::Weight, factor: Factor::Decimal(10160469088, ((-7) as i32)) }));
    assert(factor_num(Factor::Decimal(10160469088, ((-7) as i32))) == 10160469088 && factor_den(Factor::Decimal(10160469088, ((-7) as i32))) == 10000000);
}

/// Units of time agree with their definitions: the second is the base, a
/// minute is 60 seconds, an hour 60 minutes, a day 24 hours, and a year
/// 365.25 days.
pub proof fn law_time_units()
    ensures
        unit_worth("sec"@, Category::Time, 1, 1),
        unit_times("mn"@, "sec"@, 60, 1),
        unit_times("hr"@, "mn"@, 60, 1),
        unit_times("day"@, "hr"@, 24, 1),
        unit_times("yr"@, "day"@, 36525, 100),
{
    lemma_unit_names();
    lemma_pow10_values();
    assert(base_unit("day"@) == Some(UnitInfo::Standard { category: Category::Time, factor: Factor::Decimal(864, 2) }));
    assert(factor_num(Factor::Decimal(864, 2)) == 86400 && factor_den(Factor::Decimal(864, 2)) == 1);
    assert(base_unit("hr"@) == Some(UnitInfo::Standard { category: Category::Time, factor: Factor::Decimal(36, 2) }));
    assert(factor_num(Factor::Decimal(36, 2)) == 3600 && factor_den(Factor::Decimal(36, 2)) == 1);
    assert(base_unit("mn"@) == Some(UnitInfo::Standard { category: Category::Time, factor: Factor::Decimal(6, 1) }));
    assert(factor_num(Factor::Decimal(6, 1)) == 60 && factor_den(Factor::Decimal(6, 1)) == 1);
    assert(base_unit("sec"@) == Some(UnitInfo::Standard { category: Category::Time, factor: Factor::Decimal(1, 0) }));
    assert(factor_num(Factor::Decimal(1, 0)) == 1 && factor_den(Factor::Decimal(1, 0)) == 1);
    assert(base_unit("yr"@) == Some(UnitInfo::Standard { category: Category::Time, factor: Factor::Decimal(315576, 2) }));
    assert(factor_num(Factor::Decimal(315576, 2)) == 31557600 && factor_den(Factor::Decimal(315576, 2)) == 1);
}

/// Units of pressure, force, energy, power and magnetism agree with their
/// definitions: the pascal, newton, joule, watt and tesla are the bases; a
/// standard atmosphere is 101325 Pa; a dyne 10^-5 N; a pond 9.80665 mN; a
/// watt-hour 3600 J; the IT calorie 4.1868 J and the thermochemical one
/// 4.184 J; an electronvolt 1.602176634e-19 J; a metric horsepower 75
/// kilopond-metres per second (735.49875 W); a gauss 10^-4 T.
pub proof fn law_mechanics_units()
    ensures
        unit_worth("Pa"@, Category::Pressure, 1, 1),
        unit_worth("p"@, Category::Pressure, 1, 1),
        unit_worth("atm"@, Category::Pressure, 101325, 1),
        unit_worth("at"@, Category::Pressure, 101325, 1),
        unit_worth("N"@, Category::Force, 1, 1),
        unit_worth("dyn"@, Category::Force, 1, 100000),
        unit_worth("dy"@, Category::Force, 1, 100000),
        unit_worth("pond"@, Category::Force, 980665, 100000000),
        unit_worth("J"@, Category::Energy, 1, 1),
        unit_worth("Wh"@, Category::Energy, 3600, 1),
        unit_worth("wh"@, Category::Energy, 3600, 1),
        unit_worth("cal"@, Category::Energy, 41868, 10000),
        unit_worth("c"@, Category::Energy, 4184, 1000),
        unit_worth("eV"@, Category::Energy, 1602176634, 10000000000000000000000000000),
        unit_worth("ev"@, Category::Energy, 1602176634, 10000000000000000000000000000),
        unit_worth("W"@, Category::Power, 1, 1),
        unit_worth("w"@, Category::Power, 1, 1),
        unit_worth("PS"@, Category::Power, 73549875, 100000),
        unit_worth("T"@, Category::Magnetism, 1, 1),
        unit_worth("ga"@, Category::Magnetism, 1, 10000),
{
    lemma_unit_names();
    lemma_pow10_values();
    assert(base_unit("J"@) == Some(UnitInfo::Standard { category: Category::Energy, factor: Factor::Decimal(1, 0) }));
    assert(factor_num(Factor::Decimal(1, 0)) == 1 && factor_den(Factor::Decimal(1, 0)) == 1);
    assert(base_unit("N"@) == Some(UnitInfo::Standard { category: Category::Force, factor: Factor::Decimal(1, 0) }));
    assert(factor_num(Factor::Decimal(1, 0)) == 1 && factor_den(Factor::Decimal(1, 0)) == 1);
    assert(base_unit("PS"@) == Some(UnitInfo::Standard { category: Category::Power, factor: Factor::Decimal(73549875, ((-5) as i32)) }));
    assert(factor_num(Factor::Decimal(73549875, ((-5) as i32))) == 73549875 && factor_den(Factor::Decimal(73549875, ((-5) as i32))) == 100000);
    assert(base_unit("Pa"@) == Some(UnitInfo::Standard { category: Category::Pressure, factor: Factor::Decimal(1, 0) }));
    assert(factor_num(Factor::Decimal(1, 0)) == 1 && factor_den(Factor::Decimal(1, 0)) == 1);
    assert(base_unit("T"@) == Some(UnitInfo::Standard { category: Category::Magnetism, factor: Factor::Decimal(1, 0) }));
    assert(factor_num(Factor::Decimal(1, 0)) == 1 && factor_den(Factor::Decimal(1, 0)) == 1);
    assert(base_unit("W"@) == Some(UnitInfo::Standard { category: Category::Power, factor: Factor::Decimal(1, 0) }));
    assert(factor_num(Factor::Decimal(1, 0)) == 1 && factor_den(Factor::Decimal(1, 0)) == 1);
    assert(base_unit("Wh"@) == Some(UnitInfo::Standard { category: Category::Energy, factor: Factor::Decimal(36, 2) }));
    assert(factor_num(Factor::Decimal(36, 2)) == 3600 && factor_den(Factor::Decimal(36, 2)) == 1);
    assert(base_unit("at"@) == Some(UnitInfo::Standard { category: Category::Pressure, factor: Factor::Decimal(101325, 0) }));
    assert(factor_num(Factor::Decimal(101325, 0)) == 101325 && factor_den(Factor::Decimal(101325, 0)) == 1);
    assert(base_unit("atm"@) == Some(UnitInfo::Standard { category: Category::Pressure, factor: Factor::Decimal(101325, 0) }));
    assert(factor_num(Factor::Decimal(101325, 0)) == 101325 && factor_den(Factor::Decimal(101325, 0)) == 1);
    assert(base_unit("c"@) == Some(UnitInfo::Standard { category: Category::Energy, factor: Factor::Decimal(4184, ((-3) as i32)) }));
    assert(factor_num(Factor::Decimal(4184, ((-3) as i32))) == 4184 && factor_den(Factor::Decimal(4184, ((-3) as i32))) == 1000);
    assert(base_unit("cal"@) == Some(UnitInfo::Standard { category: Category::Energy, factor: Factor::Decimal(41868, ((-4) as i32)) }));
    assert(factor_num(Factor::Decimal(41868, ((-4) as i32))) == 41868 && factor_den(Factor::Decimal(41868, ((-4) as i32))) == 10000);
    assert(base_unit("dy"@) == Some(UnitInfo::Standard { category: Category::Force, factor: Factor::Decimal(1, ((-5) as i32)) }));
    assert(factor_num(Factor::Decimal(1, ((-5) as i32))) == 1 && factor_den(Factor::Decimal(1, ((-5) as i32))) == 100000);
    assert(base_unit("dyn"@) == Some(UnitInfo::Standard { category: Category::Force, factor: Factor::Decimal(1, ((-5) as i32)) }));
    assert(factor_num(Factor::Decimal(1, ((-5) as i32))) == 1 && factor_den(Factor::Decimal(1, ((-5) as i32))) == 100000);
    assert(base_unit("eV"@) == Some(UnitInfo::Standard { category: Category::Energy, factor: Factor::Decimal(1602176634, ((-28) as i32)) }));
    assert(factor_num(Factor::Decimal(1602176634, ((-28) as i32))) == 1602176634 && factor_den(Factor::Decimal(1602176634, ((-28) as i32))) == 10000000000000000000000000000);
    assert(base_unit("ev"@) == Some(UnitInfo::Standard { category: Category::Energy, factor: Factor::Decimal(1602176634, ((-28) as i32)) }));
    assert(factor_num(Factor::Decimal(1602176634, ((-28) as i32))) == 1602176634 && factor_den(Factor::Decimal(1602176634, ((-28) as i32))) == 10000000000000000000000000000);
    assert(base_unit("ga"@) == Some(UnitInfo::Standard { category: Category::Magnetism, factor: Factor::Decimal(1, ((-4) as i32)) }));
    assert(factor_num(Factor::Decimal(1, ((-4) as i32))) == 1 && factor_den(Factor::Decimal(1, ((-4) as i32))) == 10000);
    assert(base_unit("p"@) == Some(UnitInfo::Standard { category: Category::Pressure, factor: Factor::Decimal(1, 0) }));
    assert(factor_num(Factor::Decimal(1, 0)) == 1 && factor_den(Factor::Decimal(1, 0)) == 1);
    assert(base_unit("pond"@) == Some(UnitInfo::Standard { category: Category::Force, factor: Factor::Decimal(980665, ((-8) as i32)) }));
    assert(factor_num(Factor::Decimal(980665, ((-8) as i32))) == 980665 && factor_den(Factor::Decimal(980665, ((-8) as i32))) == 100000000);
    assert(base_unit("w"@) == Some(UnitInfo::Standard { category: Category::Power, factor: Factor::Decimal(1, 0) }));
    assert(factor_num(Factor::Decimal(1, 0)) == 1 && factor_den(Factor::Decimal(1, 0)) == 1);
    assert(base_unit("wh"@) == Some(UnitInfo::Standard { category: Category::Energy, factor: Factor::Decimal(36, 2) }));
    assert(factor_num(Factor::Decimal(36, 2)) == 3600 && factor_den(Factor::Decimal(36, 2)) == 1);
}

/// Units of volume agree with their definitions: the litre is the base, a
/// cubic metre is 1000 litres, a cubic inch (0.0254 m)^3, a cubic foot 1728
/// cubic inches, a cubic yard 27 cubic feet, a US gallon 231 cubic inches,
/// with its quart (1/4), pint (1/8), cup (1/2 pint), fluid ounce (1/8 cup),
/// tablespoon (1/2 ounce) and teaspoon (1/3 tablespoon); a barrel 42 gallons;
/// an imperial gallon exactly 4.54609 litres, with its quart and pint; a
/// metric teaspoon 5 ml; a register ton 100 cubic feet, a measurement ton
/// 40; a cubic ångström 10^-30 m^3.
pub proof fn law_volume_units()
    ensures
        unit_worth("l"@, Category::Volume, 1, 1),
        unit_worth("L"@, Category::Volume, 1, 1),
        unit_worth("lt"@, Category::Volume, 1, 1),
        unit_worth("m3"@, Category::Volume, 1000, 1),
        unit_worth("m^3"@, Category::Volume, 1000, 1),
        unit_worth("in3"@, Category::Volume, 16387064, 1000000000),
        unit_worth("in^3"@, Category::Volume, 16387064, 1000000000),
        unit_times("ft3"@, "in3"@, 1728, 1),
        unit_times("ft^3"@, "in3"@, 1728, 1),
        unit_times("yd3"@, "ft3"@, 27, 1),
        unit_times("yd^3"@, "ft3"@, 27, 1),
        unit_times("gal"@, "in3"@, 231, 1),
        unit_times("qt"@, "gal"@, 1, 4),
        unit_times("pt"@, "qt"@, 1, 2),
        unit_times("us_pt"@, "qt"@, 1, 2),
        unit_times("cup"@, "pt"@, 1, 2),
        unit_times("oz"@, "cup"@, 1, 8),
        unit_times("tbs"@, "oz"@, 1, 2),
        unit_times("tsp"@, "tbs"@, 1, 3),
        unit_times("barrel"@, "gal"@, 42, 1),
        unit_worth("uk_gal"@, Category::Volume, 454609, 100000),
        unit_times("uk_qt"@, "uk_gal"@, 1, 4),
        unit_times("uk_pt"@, "uk_gal"@, 1, 8),
        unit_worth("tspm"@, Category::Volume, 5, 1000),
        unit_times("GRT"@, "ft3"@, 100, 1),
        unit_times("regton"@, "ft3"@, 100, 1),
        unit_times("MTON"@, "ft3"@, 40, 1),
        unit_worth("ang3"@, Category::Volume, 1, 1000000000000000000000000000),
        unit_worth("ang^3"@, Category::Volume, 1, 1000000000000000000000000000),
{
    lemma_unit_names();
    lemma_pow10_values();
    assert(base_unit("GRT"@) == Some(UnitInfo::Standard { category: Category::Volume, factor: Factor::Decimal(28316846592, ((-7) as i32)) }));
    assert(factor_num(Factor::Decimal(28316846592, ((-7) as i32))) == 28316846592 && factor_den(Factor::Decimal(28316846592, ((-7) as i32))) == 10000000);
    assert(base_unit("L"@) == Some(UnitInfo::Standard { category: Category::Volume, factor: Factor::Decimal(1, 0) }));
    assert(factor_num(Factor::Decimal(1, 0)) == 1 && factor_den(Factor::Decimal(1, 0)) == 1);
    assert(base_unit("MTON"@) == Some(UnitInfo::Standard { category: Category::Volume, factor: Factor::Decimal(113267386368, ((-8) as i32)) }));
    assert(factor_num(Factor::Decimal(113267386368, ((-8) as i32))) == 113267386368 && factor_den(Factor::Decimal(113267386368, ((-8) as i32))) == 100000000);
    assert(base_unit("ang3"@) == Some(UnitInfo::Standard { category: Category::Volume, factor: Factor::Decimal(1, ((-27) as i32)) }));
    assert(factor_num(Factor::Decimal(1, ((-27) as i32))) == 1 && factor_den(Factor::Decimal(1, ((-27) as i32))) == 1000000000000000000000000000);
    assert(base_unit("ang^3"@) == Some(UnitInfo::Standard { category: Category::Volume, factor: Factor::Decimal(1, ((-27) as i32)) }));
    assert(factor_num(Factor::Decimal(1, ((-27) as i32))) == 1 && factor_den(Factor::Decimal(1, ((-27) as i32))) == 1000000000000000000000000000);
    assert(base_unit("barrel"@) == Some(UnitInfo::Standard { category: Category::Volume, factor: Factor::Decimal(158987294928, ((-9) as i32)) }));
    assert(factor_num(Factor::Decimal(158987294928, ((-9) as i32))) == 158987294928 && factor_den(Factor::Decimal(158987294928, ((-9) as i32))) == 1000000000);
    assert(base_unit("cup"@) == Some(UnitInfo::Standard { category: Category::Volume, factor: Factor::Decimal(2365882365, ((-10) as i32)) }));
    assert(factor_num(Factor::Decimal(2365882365, ((-10) as i32))) == 2365882365 && factor_den(Factor::Decimal(2365882365, ((-10) as i32))) == 10000000000);
    assert(base_unit("ft3"@) == Some(UnitInfo::Standard { category: Category::Volume, factor: Factor::Decimal(28316846592, ((-9) as i32)) }));
    assert(factor_num(Factor::Decimal(28316846592, ((-9) as i32))) == 28316846592 && factor_den(Factor::Decimal(28316846592, ((-9) as i32))) == 1000000000);
    assert(base_unit("ft^3"@) == Some(UnitInfo::Standard { category: Category::Volume, factor: Factor::Decimal(28316846592, ((-9) as i32)) }));
    assert(factor_num(Factor::Decimal(28316846592, ((-9) as i32))) == 28316846592 && factor_den(Factor::Decimal(28316846592, ((-9) as i32))) == 1000000000);
    assert(base_unit("gal"@) == Some(UnitInfo::Standard { category: Category::Volume, factor: Factor::Decimal(3785411784, ((-9) as i32)) }));
    assert(factor_num(Factor::Decimal(3785411784, ((-9) as i32))) == 3785411784 && factor_den(Factor::Decimal(3785411784, ((-9) as i32))) == 1000000000);
    assert(base_unit("in3"@) == Some(UnitInfo::Standard { category: Category::Volume, factor: Factor::Decimal(16387064, ((-9) as i32)) }));
    assert(factor_num(Factor::Decimal(16387064, ((-9) as i32))) == 16387064 && factor_den(Factor::Decimal(16387064, ((-9) as i32))) == 1000000000);
    assert(base_unit("in^3"@) == Some(UnitInfo::Standard { category: Category::Volume, factor: Factor::Decimal(16387064, ((-9) as i32)) }));
    assert(factor_num(Factor::Decimal(16387064, ((-9) as i32))) == 16387064 && factor_den(Factor::Decimal(16387064, ((-9) as i32))) == 1000000000);
    assert(base_unit("l"@) == Some(UnitInfo::Standard { category: Category::Volume, factor: Factor::Decimal(1, 0) }));
    assert(factor_num(Factor::Decimal(1, 0)) == 1 && factor_den(Factor::Decimal(1, 0)) == 1);
    assert(base_unit("lt"@) == Some(UnitInfo::Standard { category: Category::Volume, factor: Factor::Decimal(1, 0) }));
    assert(factor_num(Factor::Decimal(1, 0)) == 1 && factor_den(Factor::Decimal(1, 0)) == 1);
    assert(base_unit("m3"@) == Some(UnitInfo::Standard { category: Category::Volume, factor: Factor::Decimal(1, 3) }));
    assert(factor_num(Factor::Decimal(1, 3)) == 1000 && factor_den(Factor::Decimal(1, 3)) == 1);
    assert(base_unit("m^3"@) == Some(UnitInfo::Standard { category: Category::Volume, factor: Factor::Decimal(1, 3) }));
    assert(factor_num(Factor::Decimal(1, 3)) == 1000 && factor_den(Factor::Decimal(1, 3)) == 1);
    assert(base_unit("oz"@) == Some(UnitInfo::Standard { category: Category::Volume, factor: Factor::Decimal(295735295625, ((-13) as i32)) }));
    assert(factor_num(Factor::Decimal(295735295625, ((-13) as i32))) == 295735295625 && factor_den(Factor::Decimal(295735295625, ((-13) as i32))) == 10000000000000);
    assert(base_unit("pt"@) == Some(UnitInfo::Standard { category: Category::Volume, factor: Factor::Decimal(473176473, ((-9) as i32)) }));
    assert(factor_num(Factor::Decimal(473176473, ((-9) as i32))) == 473176473 && factor_den(Factor::Decimal(473176473, ((-9) as i32))) == 1000000000);
    assert(base_unit("qt"@) == Some(UnitInfo::Standard { category: Category::Volume, factor: Factor::Decimal(946352946, ((-9) as i32)) }));
    assert(factor_num(Factor::Decimal(946352946, ((-9) as i32))) == 946352946 && factor_den(Factor::Decimal(946352946, ((-9) as i32))) == 1000000000);
    assert(base_unit("regton"@) == Some(UnitInfo::Standard { category: Category::Volume, factor: Factor::Decimal(28316846592, ((-7) as i32)) }));
    assert(factor_num(Factor::Decimal(28316846592, ((-7) as i32))) == 28316846592 && factor_den(Factor::Decimal(28316846592, ((-7) as i32))) == 10000000);
    assert(base_unit("tbs"@) == Some(UnitInfo::Standard { category: Category::Volume, factor: Factor::Decimal(1478676478125, ((-14) as i32)) }));
    assert(factor_num(Factor::Decimal(1478676478125, ((-14) as i32))) == 1478676478125 && factor_den(Factor::Decimal(1478676478125, ((-14) as i32))) == 100000000000000);
    assert(base_unit("tsp"@) == Some(UnitInfo::Standard { category: Category::Volume, factor: Factor::Decimal(492892159375, ((-14) as i32)) }));
    assert(factor_num(Factor::Decimal(492892159375, ((-14) as i32))) == 492892159375 && factor_den(Factor::Decimal(492892159375, ((-14) as i32))) == 100000000000000);
    assert(base_unit("tspm"@) == Some(UnitInfo::Standard { category: Category::Volume, factor: Factor::Decimal(5, ((-3) as i32)) }));
    assert(factor_num(Factor::Decimal(5, ((-3) as i32))) == 5 && factor_den(Factor::Decimal(5, ((-3) as i32))) == 1000);
    assert(base_unit("uk_gal"@) == Some(UnitInfo::Standard { category: Category::Volume, factor: Factor::Decimal(454609, ((-5) as i32)) }));
    assert(factor_num(Factor::Decimal(454609, ((-5) as i32))) == 454609 && factor_den(Factor::Decimal(454609, ((-5) as i32))) == 100000);
    assert(base_unit("uk_pt"@) == Some(UnitInfo::Standard { category: Category::Volume, factor: Factor::Decimal(56826125, ((-8) as i32)) }));
    assert(factor_num(Factor::Decimal(56826125, ((-8) as i32))) == 56826125 && factor_den(Factor::Decimal(56826125, ((-8) as i32))) == 100000000);
    assert(base_unit("uk_qt"@) == Some(UnitInfo::Standard { category: Category::Volume, factor: Factor::Decimal(11365225, ((-7) as i32)) }));
    assert(factor_num(Factor::Decimal(11365225, ((-7) as i32))) == 11365225 && factor_den(Factor::Decimal(11365225, ((-7) as i32))) == 10000000);
    assert(base_unit("us_pt"@) == Some(UnitInfo::Standard { category: Category::Volume, factor: Factor::Decimal(473176473, ((-9) as i32)) }));
    assert(factor_num(Factor::Decimal(473176473, ((-9) as i32))) == 473176473 && factor_den(Factor::Decimal(473176473, ((-9) as i32))) == 1000000000);
    assert(base_unit("yd3"@) == Some(UnitInfo::Standard { category: Category::Volume, factor: Factor::Decimal(764554857984, ((-9) as i32)) }));
    assert(factor_num(Factor::Decimal(764554857984, ((-9) as i32))) == 764554857984 && factor_den(Factor::Decimal(764554857984, ((-9) as i32))) == 1000000000);
    assert(base_unit("yd^3"@) == Some(UnitInfo::Standard { category: Category::Volume, factor: Factor::Decimal(764554857984, ((-9) as i32)) }));
    assert(factor_num(Factor::Decimal(764554857984, ((-9) as i32))) == 764554857984 && factor_den(Factor::Decimal(764554857984, ((-9) as i32))) == 1000000000);
}

/// Units of area agree with their definitions: the square metre is the base,
/// an are is 100 m^2 and a hectare 100 ares, a square inch (0.0254 m)^2, a
/// square foot 144 square inches, a square yard 9 square feet, a square mile
/// 1760^2 square yards, an acre 4840 square yards, a square nautical mile
/// 1852^2 m^2, a Morgen 2500 m^2, a square ångström 10^-20 m^2.
pub proof fn law_area_units()
    ensures
        unit_worth("m2"@, Category::Area, 1, 1),
        unit_worth("m^2"@, Category::Area, 1, 1),
        unit_worth("ar"@, Category::Area, 100, 1),
        unit_times("ha"@, "ar"@, 100, 1),
        unit_worth("in2"@, Category::Area, 64516, 100000000),
        unit_worth("in^2"@, Category::Area, 64516, 100000000),
        unit_times("ft2"@, "in2"@, 144, 1),
        unit_times("ft^2"@, "in2"@, 144, 1),
        unit_times("yd2"@, "ft2"@, 9, 1),
        unit_times("yd^2"@, "ft2"@, 9, 1),
        unit_times("mi2"@, "yd2"@, 3097600, 1),
        unit_times("mi^2"@, "yd2"@, 3097600, 1),
        unit_times("uk_acre"@, "yd2"@, 4840, 1),
        unit_worth("Nmi2"@, Category::Area, 3429904, 1),
        unit_worth("Nmi^2"@, Category::Area, 3429904, 1),
        unit_worth("Morgen"@, Category::Area, 2500, 1),
        unit_worth("ang2"@, Category::Area, 1, 100000000000000000000),
        unit_worth("ang^2"@, Category::Area, 1, 100000000000000000000),
{
    lemma_unit_names();
    lemma_pow10_values();
    assert(base_unit("Morgen"@) == Some(UnitInfo::Standard { category: Category::Area, factor: Factor::Decimal(25, 2) }));
    assert(factor_num(Factor::Decimal(25, 2)) == 2500 && factor_den(Factor::Decimal(25, 2)) == 1);
    assert(base_unit("Nmi2"@) == Some(UnitInfo::Standard { category: Category::Area, factor: Factor::Decimal(3429904, 0) }));
    assert(factor_num(Factor::Decimal(3429904, 0)) == 3429904 && factor_den(Factor::Decimal(3429904, 0)) == 1);
    assert(base_unit("Nmi^2"@) == Some(UnitInfo::Standard { category: Category::Area, factor: Factor::Decimal(3429904, 0) }));
    assert(factor_num(Factor::Decimal(3429904, 0)) == 3429904 && factor_den(Factor::Decimal(3429904, 0)) == 1);
    assert(base_unit("ang2"@) == Some(UnitInfo::Standard { category: Category::Area, factor: Factor::Decimal(1, ((-20) as i32)) }));
    assert(factor_num(Factor::Decimal(1, ((-20) as i32))) == 1 && factor_den(Factor::Decimal(1, ((-20) as i32))) == 100000000000000000000);
    assert(base_unit("ang^2"@) == Some(UnitInfo::Standard { category: Category::Area, factor: Factor::Decimal(1, ((-20) as i32)) }));
    assert(factor_num(Factor::Decimal(1, ((-20) as i32))) == 1 && factor_den(Factor::Decimal(1, ((-20) as i32))) == 100000000000000000000);
    assert(base_unit("ar"@) == Some(UnitInfo::Standard { category: Category::Area, factor: Factor::Decimal(1, 2) }));
    assert(factor_num(Factor::Decimal(1, 2)) == 100 && factor_den(Factor::Decimal(1, 2)) == 1);
    assert(base_unit("ft2"@) == Some(UnitInfo::Standard { category: Category::Area, factor: Factor::Decimal(9290304, ((-8) as i32)) }));
    assert(factor_num(Factor::Decimal(9290304, ((-8) as i32))) == 9290304 && factor_den(Factor::Decimal(9290304, ((-8) as i32))) == 100000000);
    assert(base_unit("ft^2"@) == Some(UnitInfo::Standard { category: Category::Area, factor: Factor::Decimal(9290304, ((-8) as i32)) }));
    assert(factor_num(Factor::Decimal(9290304, ((-8) as i32))) == 9290304 && factor_den(Factor::Decimal(9290304, ((-8) as i32))) == 100000000);
    assert(base_unit("ha"@) == Some(UnitInfo::Standard { category: Category::Area, factor: Factor::Decimal(1, 4) }));
    assert(factor_num(Factor::Decimal(1, 4)) == 10000 && factor_den(Factor::Decimal(1, 4)) == 1);
    assert(base_unit("in2"@) == Some(UnitInfo::Standard { category: Category::Area, factor: Factor::Decimal(64516, ((-8) as i32)) }));
    assert(factor_num(Factor::Decimal(64516, ((-8) as i32))) == 64516 && factor_den(Factor::Decimal(64516, ((-8) as i32))) == 100000000);
    assert(base_unit("in^2"@) == Some(UnitInfo::Standard { category: Category::Area, factor: Factor::Decimal(64516, ((-8) as i32)) }));
    assert(factor_num(Factor::Decimal(64516, ((-8) as i32))) == 64516 && factor_den(Factor::Decimal(64516, ((-8) as i32))) == 100000000);
    assert(base_unit("m2"@) == Some(UnitInfo::Standard { category: Category::Area, factor: Factor::Decimal(1, 0) }));
    assert(factor_num(Factor::Decimal(1, 0)) == 1 && factor_den(Factor::Decimal(1, 0)) == 1);
    assert(base_unit("m^2"@) == Some(UnitInfo::Standard { category: Category::Area, factor: Factor::Decimal(1, 0) }));
    assert(factor_num(Factor::Decimal(1, 0)) == 1 && factor_den(Factor::Decimal(1, 0)) == 1);
    assert(base_unit("mi2"@) == Some(UnitInfo::Standard { category: Category::Area, factor: Factor::Decimal(2589988110336, ((-6) as i32)) }));
    assert(factor_num(Factor::Decimal(2589988110336, ((-6) as i32))) == 2589988110336 && factor_den(Factor::Decimal(2589988110336, ((-6) as i32))) == 1000000);
    assert(base_unit("mi^2"@) == Some(UnitInfo::Standard { category: Category::Area, factor: Factor::Decimal(2589988110336, ((-6) as i32)) }));
    assert(factor_num(Factor::Decimal(2589988110336, ((-6) as i32))) == 2589988110336 && factor_den(Factor::Decimal(2589988110336, ((-6) as i32))) == 1000000);
    assert(base_unit("uk_acre"@) == Some(UnitInfo::Standard { category: Category::Area, factor: Factor::Decimal(40468564224, ((-7) as i32)) }));
    assert(factor_num(Factor::Decimal(40468564224, ((-7) as i32))) == 40468564224 && factor_den(Factor::Decimal(40468564224, ((-7) as i32))) == 10000000);
    assert(base_unit("yd2"@) == Some(UnitInfo::Standard { category: Category::Area, factor: Factor::Decimal(83612736, ((-8) as i32)) }));
    assert(factor_num(Factor::Decimal(83612736, ((-8) as i32))) == 83612736 && factor_den(Factor::Decimal(83612736, ((-8) as i32))) == 100000000);
    assert(base_unit("yd^2"@) == Some(UnitInfo::Standard { category: Category::Area, factor: Factor::Decimal(83612736, ((-8) as i32)) }));
    assert(factor_num(Factor::Decimal(83612736, ((-8) as i32))) == 83612736 && factor_den(Factor::Decimal(83612736, ((-8) as i32))) == 100000000);
}

/// Units of speed and information agree with their definitions: metres per
/// second are the base, a metre per hour is 1/3600 of it, a mile per hour
/// 1609.344 m per 3600 s; a bit is the base of information and a byte 8
/// bits.
pub proof fn law_speed_information_units()
    ensures
        unit_worth("m/s"@, Category::Speed, 1, 1),
        unit_worth("m/sec"@, Category::Speed, 1, 1),
        unit_worth("m/h"@, Category::Speed, 1, 3600),
        unit_worth("m/hr"@, Category::Speed, 1, 3600),
        unit_worth("mph"@, Category::Speed, 1609344, 3600000),
        unit_worth("bit"@, Category::Information, 1, 1),
        unit_times("byte"@, "bit"@, 8, 1),
{
    lemma_unit_names();
    lemma_pow10_values();
    assert(base_unit("bit"@) == Some(UnitInfo::Standard { category: Category::Information, factor: Factor::Decimal(1, 0) }));
    assert(factor_num(Factor::Decimal(1, 0)) == 1 && factor_den(Factor::Decimal(1, 0)) == 1);
    assert(base_unit("byte"@) == Some(UnitInfo::Standard { category: Category::Information, factor: Factor::Decimal(8, 0) }));
    assert(factor_num(Factor::Decimal(8, 0)) == 8 && factor_den(Factor::Decimal(8, 0)) == 1);
    assert(base_unit("m/h"@) == Some(UnitInfo::Standard { category: Category::Speed, factor: Factor::Ratio(1, 3600) }));
    assert(factor_num(Factor::Ratio(1, 3600)) == 1 && factor_den(Factor::Ratio(1, 3600)) == 3600);
    assert(base_unit("m/hr"@) == Some(UnitInfo::Standard { category: Category::Speed, factor: Factor::Ratio(1, 3600) }));
    assert(factor_num(Factor::Ratio(1, 3600)) == 1 && factor_den(Factor::Ratio(1, 3600)) == 3600);
    assert(base_unit("m/s"@) == Some(UnitInfo::Standard { category: Category::Speed, factor: Factor::Decimal(1, 0) }));
    assert(factor_num(Factor::Decimal(1, 0)) == 1 && factor_den(Factor::Decimal(1, 0)) == 1);
    assert(base_unit("m/sec"@) == Some(UnitInfo::Standard { category: Category::Speed, factor: Factor::Decimal(1, 0) }));
    assert(factor_num(Factor::Decimal(1, 0)) == 1 && factor_den(Factor::Decimal(1, 0)) == 1);
    assert(base_unit("mph"@) == Some(UnitInfo::Standard { category: Category::Speed, factor: Factor::Decimal(44704, ((-5) as i32)) }));
    assert(factor_num(Factor::Decimal(44704, ((-5) as i32))) == 44704 && factor_den(Factor::Decimal(44704, ((-5) as i32))) == 100000);
}

/// `a` names a unit of `cat` whose factor is within half of
/// `unit_num / unit_den` of `num / den` base units.
pub open spec fn unit_near(a: Seq<char>, cat: Category, num: int, den: int, unit_num: int, unit_den: int) -> bool {
    match base_unit(a) {
        Some(UnitInfo::Standard { category, factor }) => {
            let diff = factor_num(factor) * den - num * factor_den(factor);
            let size = if diff < 0 { -diff } else { diff };
            category == cat && 2 * size * unit_den <= factor_den(factor) * den * unit_num
        },
        _ => false,
    }
}

/// Units defined through others, or by a constant, carry the exact value
/// rounded to the table's last digit (or exactly, where it has it all): a
/// slug is a pound-force per foot per second squared, a survey mile 6336/3937
/// km, a light year 299792458 m/s for a Julian year, a point 1/72 inch and a
/// pica 1/6 inch, a millimetre of mercury 133.322387415 Pa, a psi a
/// pound-force per square inch, a torr 1/760 atmosphere, a pound-force the
/// standard gravity on a pound, the IT British thermal unit 1055.05585262 J,
/// a foot-pound a pound-force over a foot, a mechanical horsepower 550
/// foot-pounds per second, a US bushel 2150.42 cubic inches, a cubic mile
/// 1760^3 cubic yards, a US survey acre 43560 survey square feet, a knot
/// 1852 m per hour and an admiralty knot 6080 feet per hour.
pub proof fn law_rounded_units()
    ensures
        unit_near("sg"@, Category::Weight, 8896443230521, 609600000000, 1, 100000000),
        unit_near("survey_mi"@, Category::Distance, 6336000, 3937, 1, 1000000),
        unit_near("ly"@, Category::Distance, 9460730472580800, 1, 10000, 1),
        unit_near("Picapt"@, Category::Distance, 127, 360000, 1, 100000000000),
        unit_near("Pica"@, Category::Distance, 127, 360000, 1, 100000000000),
        unit_near("pica"@, Category::Distance, 127, 30000, 1, 100000000000),
        unit_near("mmHg"@, Category::Pressure, 26664477483, 200000000, 1, 1000),
        unit_near("psi"@, Category::Pressure, 8896443230521, 1290320000, 1, 1000000000),
        unit_near("Torr"@, Category::Pressure, 20265, 152, 1, 10000000000),
        unit_worth("lbf"@, Category::Force, 8896443230521, 2000000000000),
        unit_worth("BTU"@, Category::Energy, 52752792631, 50000000),
        unit_worth("btu"@, Category::Energy, 52752792631, 50000000),
        unit_near("flb"@, Category::Energy, 3389544870828501, 2500000000000000, 1, 10000000000000),
        unit_near("HP"@, Category::Power, 37284993579113511, 50000000000000, 1, 100000000000),
        unit_near("h"@, Category::Power, 37284993579113511, 50000000000000, 1, 100000000000),
        unit_near("bushel"@, Category::Volume, 220244188543, 6250000000, 1, 100000000),
        unit_near("mi3"@, Category::Volume, 65127841022509056, 15625, 1000, 1),
        unit_near("mi^3"@, Category::Volume, 65127841022509056, 15625, 1000, 1),
        unit_near("us_acre"@, Category::Area, 62726400000, 15499969, 1, 1000000000),
        unit_near("Picapt2"@, Category::Area, 16129, 129600000000, 1, 1000000000000),
        unit_near("Picapt^2"@, Category::Area, 16129, 129600000000, 1, 1000000000000),
        unit_near("ly2"@, Category::Area, 89505421074818927300612528640000, 1, 1000000000000000000000, 1),
        unit_near("ly^2"@, Category::Area, 89505421074818927300612528640000, 1, 1000000000000000000000, 1),
        unit_near("kn"@, Category::Speed, 463, 900, 1, 1000000000),
        unit_near("admkn"@, Category::Speed, 4826, 9375, 1, 1000000000),
{
    lemma_unit_names();
    lemma_pow10_values();
    assert(base_unit("BTU"@) == Some(UnitInfo::Standard { category: Category::Energy, factor: Factor::Decimal(105505585262, ((-8) as i32)) }));
    assert(factor_num(Factor::Decimal(105505585262, ((-8) as i32))) == 105505585262 && factor_den(Factor::Decimal(105505585262, ((-8) as i32))) == 100000000);
    assert(base_unit("HP"@) == Some(UnitInfo::Standard { category: Category::Power, factor: Factor::Decimal(74569987158227, ((-11) as i32)) }));
    assert(factor_num(Factor::Decimal(74569987158227, ((-11) as i32))) == 74569987158227 && factor_den(Factor::Decimal(74569987158227, ((-11) as i32))) == 100000000000);
    assert(base_unit("Pica"@) == Some(UnitInfo::Standard { category: Category::Distance, factor: Factor::Decimal(35277778, ((-11) as i32)) }));
    assert(factor_num(Factor::Decimal(35277778, ((-11) as i32))) == 35277778 && factor_den(Factor::Decimal(35277778, ((-11) as i32))) == 100000000000);
    assert(base_unit("Picapt"@) == Some(UnitInfo::Standard { category: Category::Distance, factor: Factor::Decimal(35277778, ((-11) as i32)) }));
    assert(factor_num(Factor::Decimal(35277778, ((-11) as i32))) == 35277778 && factor_den(Factor::Decimal(35277778, ((-11) as i32))) == 100000000000);
    assert(base_unit("Picapt2"@) == Some(UnitInfo::Standard { category: Category::Area, factor: Factor::Decimal(124452, ((-12) as i32)) }));
    assert(factor_num(Factor::Decimal(124452, ((-12) as i32))) == 124452 && factor_den(Factor::Decimal(124452, ((-12) as i32))) == 1000000000000);
    assert(base_unit("Picapt^2"@) == Some(UnitInfo::Standard { category: Category::Area, factor: Factor::Decimal(124452, ((-12) as i32)) }));
    assert(factor_num(Factor::Decimal(124452, ((-12) as i32))) == 124452 && factor_den(Factor::Decimal(124452, ((-12) as i32))) == 1000000000000);
    assert(base_unit("Torr"@) == Some(UnitInfo::Standard { category: Category::Pressure, factor: Factor::Decimal(1333223684211, ((-10) as i32)) }));
    assert(factor_num(Factor::Decimal(1333223684211, ((-10) as i32))) == 1333223684211 && factor_den(Factor::Decimal(1333223684211, ((-10) as i32))) == 10000000000);
    assert(base_unit("admkn"@) == Some(UnitInfo::Standard { category: Category::Speed, factor: Factor::Decimal(514773333, ((-9) as i32)) }));
    assert(factor_num(Factor::Decimal(514773333, ((-9) as i32))) == 514773333 && factor_den(Factor::Decimal(514773333, ((-9) as i32))) == 1000000000);
    assert(base_unit("btu"@) == Some(UnitInfo::Standard { category: Category::Energy, factor: Factor::Decimal(105505585262, ((-8) as i32)) }));
    assert(factor_num(Factor::Decimal(105505585262, ((-8) as i32))) == 105505585262 && factor_den(Factor::Decimal(105505585262, ((-8) as i32))) == 100000000);
    assert(base_unit("bushel"@) == Some(UnitInfo::Standard { category: Category::Volume, factor: Factor::Decimal(3523907017, ((-8) as i32)) }));
    assert(factor_num(Factor::Decimal(3523907017, ((-8) as i32))) == 3523907017 && factor_den(Factor::Decimal(3523907017, ((-8) as i32))) == 100000000);
    assert(base_unit("flb"@) == Some(UnitInfo::Standard { category: Category::Energy, factor: Factor::Decimal(13558179483314, ((-13) as i32)) }));
    assert(factor_num(Factor::Decimal(13558179483314, ((-13) as i32))) == 13558179483314 && factor_den(Factor::Decimal(13558179483314, ((-13) as i32))) == 10000000000000);
    assert(base_unit("h"@) == Some(UnitInfo::Standard { category: Category::Power, factor: Factor::Decimal(74569987158227, ((-11) as i32)) }));
    assert(factor_num(Factor::Decimal(74569987158227, ((-11) as i32))) == 74569987158227 && factor_den(Factor::Decimal(74569987158227, ((-11) as i32))) == 100000000000);
    assert(base_unit("kn"@) == Some(UnitInfo::Standard { category: Category::Speed, factor: Factor::Decimal(514444444, ((-9) as i32)) }));
    assert(factor_num(Factor::Decimal(514444444, ((-9) as i32))) == 514444444 && factor_den(Factor::Decimal(514444444, ((-9) as i32))) == 1000000000);
    assert(base_unit("lbf"@) == Some(UnitInfo::Standard { category: Category::Force, factor: Factor::Decimal(44482216152605, ((-13) as i32)) }));
    assert(factor_num(Factor::Decimal(44482216152605, ((-13) as i32))) == 44482216152605 && factor_den(Factor::Decimal(44482216152605, ((-13) as i32))) == 10000000000000);
    assert(base_unit("ly"@) == Some(UnitInfo::Standard { category: Category::Distance, factor: Factor::Decimal(946073047258, 4) }));
    assert(factor_num(Factor::Decimal(946073047258, 4)) == 9460730472580000 && factor_den(Factor::Decimal(946073047258, 4)) == 1);
    assert(base_unit("ly2"@) == Some(UnitInfo::Standard { category: Category::Area, factor: Factor::Decimal(89505421075, 21) }));
    assert(factor_num(Factor::Decimal(89505421075, 21)) == 89505421075000000000000000000000 && factor_den(Factor::Decimal(89505421075, 21)) == 1);
    assert(base_unit("ly^2"@) == Some(UnitInfo::Standard { category: Category::Area, factor: Factor::Decimal(89505421075, 21) }));
    assert(factor_num(Factor::Decimal(89505421075, 21)) == 89505421075000000000000000000000 && factor_den(Factor::Decimal(89505421075, 21)) == 1);
    assert(base_unit("mi3"@) == Some(UnitInfo::Standard { category: Category::Volume, factor: Factor::Decimal(4168181825, 3) }));
    assert(factor_num(Factor::Decimal(4168181825, 3)) == 4168181825000 && factor_den(Factor::Decimal(4168181825, 3)) == 1);
    assert(base_unit("mi^3"@) == Some(UnitInfo::Standard { category: Category::Volume, factor: Factor::Decimal(4168181825, 3) }));
    assert(factor_num(Factor::Decimal(4168181825, 3)) == 4168181825000 && factor_den(Factor::Decimal(4168181825, 3)) == 1);
    assert(base_unit("mmHg"@) == Some(UnitInfo::Standard { category: Category::Pressure, factor: Factor::Decimal(133322, ((-3) as i32)) }));
    assert(factor_num(Factor::Decimal(133322, ((-3) as i32))) == 133322 && factor_den(Factor::Decimal(133322, ((-3) as i32))) == 1000);
    assert(base_unit("pica"@) == Some(UnitInfo::Standard { category: Category::Distance, factor: Factor::Decimal(423333333, ((-11) as i32)) }));
    assert(factor_num(Factor::Decimal(423333333, ((-11) as i32))) == 423333333 && factor_den(Factor::Decimal(423333333, ((-11) as i32))) == 100000000000);
    assert(base_unit("psi"@) == Some(UnitInfo::Standard { category: Category::Pressure, factor: Factor::Decimal(6894757293168, ((-9) as i32)) }));
    assert(factor_num(Factor::Decimal(6894757293168, ((-9) as i32))) == 6894757293168 && factor_den(Factor::Decimal(6894757293168, ((-9) as i32))) == 1000000000);
    assert(base_unit("sg"@) == Some(UnitInfo::Standard { category: Category::Weight, factor: Factor::Decimal(1459390294, ((-8) as i32)) }));
    assert(factor_num(Factor::Decimal(1459390294, ((-8) as i32))) == 1459390294 && factor_den(Factor::Decimal(1459390294, ((-8) as i32))) == 100000000);
    assert(base_unit("survey_mi"@) == Some(UnitInfo::Standard { category: Category::Distance, factor: Factor::Decimal(1609347219, ((-6) as i32)) }));
    assert(factor_num(Factor::Decimal(1609347219, ((-6) as i32))) == 1609347219 && factor_den(Factor::Decimal(1609347219, ((-6) as i32))) == 1000000);
    assert(base_unit("us_acre"@) == Some(UnitInfo::Standard { category: Category::Area, factor: Factor::Decimal(4046872609874, ((-9) as i32)) }));
    assert(factor_num(Factor::Decimal(4046872609874, ((-9) as i32))) == 4046872609874 && factor_den(Factor::Decimal(4046872609874, ((-9) as i32))) == 1000000000);
}


/// `p` is a prefix whose factor is exactly `num / den`.
pub open spec fn prefix_worth(p: Seq<char>, num: int, den: int) -> bool {
    exists|i: int|
        #![trigger prefix_symbol(i)]
        0 <= i < PREFIX_COUNT && prefix_symbol(i) == p && factor_num(prefix_factor(i)) * den == num
            * factor_den(prefix_factor(i))
}

/// `p` is a prefix whose factor is within half of `unit` of `num / den`.
pub open spec fn prefix_near(p: Seq<char>, num: int, den: int, unit: int) -> bool {
    exists|i: int|
        #![trigger prefix_symbol(i)]
        0 <= i < PREFIX_COUNT && prefix_symbol(i) == p && ({
            let diff = factor_num(prefix_factor(i)) * den - num * factor_den(prefix_factor(i));
            2 * (if diff < 0 { -diff } else { diff }) <= factor_den(prefix_factor(i)) * den * unit
        })
}

/// The prefixes stand for their SI and binary values: deca 10, hecto 100,
/// kilo 10^3 up to yotta 10^24, deci 10^-1 down to yocto 10^-24; kibi 2^10 up
/// to exbi 2^60, with zebi 2^70 and yobi 2^80 rounded to the table's digits.
pub proof fn law_prefix_values()
    ensures
        prefix_worth("da"@, 10, 1),
        prefix_near("Yi"@, 1208925819614629174706176, 1, 1000000000000),
        prefix_near("Zi"@, 1180591620717411303424, 1, 1000000000),
        prefix_worth("Gi"@, 1073741824, 1),
        prefix_worth("Ti"@, 1099511627776, 1),
        prefix_worth("Mi"@, 1048576, 1),
        prefix_worth("Pi"@, 1125899906842624, 1),
        prefix_worth("Ei"@, 1152921504606846976, 1),
        prefix_worth("ki"@, 1024, 1),
        prefix_worth("Y"@, 1000000000000000000000000, 1),
        prefix_worth("Z"@, 1000000000000000000000, 1),
        prefix_worth("E"@, 1000000000000000000, 1),
        prefix_worth("P"@, 1000000000000000, 1),
        prefix_worth("T"@, 1000000000000, 1),
        prefix_worth("G"@, 1000000000, 1),
        prefix_worth("M"@, 1000000, 1),
        prefix_worth("k"@, 1000, 1),
        prefix_worth("h"@, 100, 1),
        prefix_worth("d"@, 1, 10),
        prefix_worth("c"@, 1, 100),
        prefix_worth("m"@, 1, 1000),
        prefix_worth("u"@, 1, 1000000),
        prefix_worth("n"@, 1, 1000000000),
        prefix_worth("p"@, 1, 1000000000000),
        prefix_worth("f"@, 1, 1000000000000000),
        prefix_worth("a"@, 1, 1000000000000000000),
        prefix_worth("z"@, 1, 1000000000000000000000),
        prefix_worth("y"@, 1, 1000000000000000000000000),
{
    lemma_pow10_values();
    assert(prefix_symbol(0) == "da"@);
    assert(prefix_symbol(1) == "Yi"@);
    assert(prefix_symbol(2) == "Zi"@);
    assert(prefix_symbol(3) == "Gi"@);
    assert(prefix_symbol(4) == "Ti"@);
    assert(prefix_symbol(5) == "Mi"@);
    assert(prefix_symbol(6) == "Pi"@);
    assert(prefix_symbol(7) == "Ei"@);
    assert(prefix_symbol(8) == "ki"@);
    assert(prefix_symbol(9) == "Y"@);
    assert(prefix_symbol(10) == "Z"@);
    assert(prefix_symbol(11) == "E"@);
    assert(prefix_symbol(12) == "P"@);
    assert(prefix_symbol(13) == "T"@);
    assert(prefix_symbol(14) == "G"@);
    assert(prefix_symbol(15) == "M"@);
    assert(prefix_symbol(16) == "k"@);
    assert(prefix_symbol(17) == "h"@);
    assert(prefix_symbol(18) == "d"@);
    assert(prefix_symbol(19) == "c"@);
    assert(prefix_symbol(20) == "m"@);
    assert(prefix_symbol(21) == "u"@);
    assert(prefix_symbol(22) == "n"@);
    assert(prefix_symbol(23) == "p"@);
    assert(prefix_symbol(24) == "f"@);
    assert(prefix_symbol(25) == "a"@);
    assert(prefix_symbol(26) == "z"@);
    assert(prefix_symbol(27) == "y"@);
}


/// The temperature scales go by their names: `C` and `cel` name Celsius,
/// `F` and `fah` Fahrenheit, `K` and `kel` Kelvin, `Rank` Rankine and `Reau`
/// Réaumur.
pub proof fn law_temperature_names()
    ensures
        base_unit("C"@) == Some(UnitInfo::Temp(TempUnit::Celsius)),
        base_unit("cel"@) == Some(UnitInfo::Temp(TempUnit::Celsius)),
        base_unit("F"@) == Some(UnitInfo::Temp(TempUnit::Fahrenheit)),
        base_unit("fah"@) == Some(UnitInfo::Temp(TempUnit::Fahrenheit)),
        base_unit("K"@) == Some(UnitInfo::Temp(TempUnit::Kelvin)),
        base_unit("kel"@) == Some(UnitInfo::Temp(TempUnit::Kelvin)),
        base_unit("Rank"@) == Some(UnitInfo::Temp(TempUnit::Rankine)),
        base_unit("Reau"@) == Some(UnitInfo::Temp(TempUnit::Reaumur)),
{
    lemma_unit_names();
}

} // verus!
