use xlstream::cell_error::CellError;
use xlstream::convert::{conversion, parse_unit, Category, Conversion, Factor, Scaled, TempUnit, Unit, UnitInfo};

fn factor_value(f: Factor) -> f64 {
    match f {
        Factor::Decimal(m, e) => format!("{m}e{e}").parse::<f64>().unwrap(),
        Factor::Ratio(n, d) => n as f64 / d as f64,
    }
}

fn scaled_value(s: Scaled) -> f64 {
    let f = factor_value(s.factor);
    match s.prefix {
        Some(p) => f * factor_value(p),
        None => f,
    }
}

fn to_celsius(val: f64, from: TempUnit) -> f64 {
    match from {
        TempUnit::Celsius => val,
        TempUnit::Fahrenheit => (val - 32.0) * 5.0 / 9.0,
        TempUnit::Kelvin => val - 273.15,
        TempUnit::Rankine => val * 5.0 / 9.0 - 273.15,
        TempUnit::Reaumur => val * 5.0 / 4.0,
    }
}

fn from_celsius(c: f64, to: TempUnit) -> f64 {
    match to {
        TempUnit::Celsius => c,
        TempUnit::Fahrenheit => c * 9.0 / 5.0 + 32.0,
        TempUnit::Kelvin => c + 273.15,
        TempUnit::Rankine => (c + 273.15) * 9.0 / 5.0,
        TempUnit::Reaumur => c * 4.0 / 5.0,
    }
}

fn convert(num: f64, from: &str, to: &str) -> Result<f64, CellError> {
    match conversion(from, to)? {
        Conversion::Scale { from, to } => Ok(num * (scaled_value(from) / scaled_value(to))),
        Conversion::Temperature { from, to } => {
            if from == to {
                Ok(num)
            } else {
                Ok(from_celsius(to_celsius(num, from), to))
            }
        }
    }
}

fn assert_num(val: Result<f64, CellError>, expected: f64) {
    match val {
        Ok(n) => assert!(
            (n - expected).abs() < 1e-6 || (expected != 0.0 && ((n - expected) / expected).abs() < 1e-9),
            "expected {expected}, got {n}"
        ),
        Err(e) => panic!("expected {expected}, got {e:?}"),
    }
}

#[test]
fn convert_weight() {
    assert_num(convert(1.0, "lbm", "kg"), 0.453_592_37);
}

#[test]
fn convert_distance() {
    assert_num(convert(1.0, "mi", "km"), 1.609_344);
}

#[test]
fn convert_time() {
    assert_num(convert(1.0, "day", "hr"), 24.0);
}

#[test]
fn convert_pressure() {
    assert_num(convert(1.0, "atm", "Pa"), 101_325.0);
}

#[test]
fn convert_force() {
    assert_num(convert(1.0, "lbf", "N"), 4.448_221_615_260_5);
}

#[test]
fn convert_energy() {
    assert_num(convert(1.0, "BTU", "J"), 1_055.055_852_62);
}

#[test]
fn convert_power() {
    assert_num(convert(1.0, "HP", "W"), 745.699_871_582_27);
}

#[test]
fn convert_magnetism() {
    assert_num(convert(1.0, "T", "ga"), 10_000.0);
}

#[test]
fn convert_volume() {
    assert_num(convert(1.0, "gal", "l"), 3.785_411_784);
}

#[test]
fn convert_area() {
    assert_num(convert(1.0, "ha", "m2"), 10_000.0);
}

#[test]
fn convert_celsius_to_fahrenheit_zero() {
    assert_num(convert(0.0, "C", "F"), 32.0);
}

#[test]
fn convert_celsius_to_fahrenheit_100() {
    assert_num(convert(100.0, "C", "F"), 212.0);
}

#[test]
fn convert_fahrenheit_to_celsius() {
    assert_num(convert(68.0, "F", "C"), 20.0);
}

#[test]
fn convert_celsius_to_kelvin() {
    assert_num(convert(0.0, "C", "K"), 273.15);
}

#[test]
fn convert_kelvin_to_celsius() {
    assert_num(convert(0.0, "K", "C"), -273.15);
}

#[test]
fn convert_celsius_to_rankine() {
    assert_num(convert(0.0, "C", "Rank"), 491.67);
}

#[test]
fn convert_celsius_to_reaumur() {
    assert_num(convert(0.0, "C", "Reau"), 0.0);
}

#[test]
fn convert_reaumur_to_celsius() {
    assert_num(convert(80.0, "Reau", "C"), 100.0);
}

#[test]
fn convert_minus_40_celsius_to_fahrenheit() {
    assert_num(convert(-40.0, "C", "F"), -40.0);
}

#[test]
fn convert_meter_to_kilometer() {
    assert_num(convert(1.0, "m", "km"), 0.001);
}

#[test]
fn convert_kilometer_to_meter() {
    assert_num(convert(1.0, "km", "m"), 1000.0);
}

#[test]
fn convert_kilogram_to_gram() {
    assert_num(convert(1.0, "kg", "g"), 1000.0);
}

#[test]
fn convert_milligram_to_gram() {
    assert_num(convert(1.0, "mg", "g"), 0.001);
}

#[test]
fn convert_megawatt_to_watt() {
    assert_num(convert(1.0, "MW", "W"), 1_000_000.0);
}

#[test]
fn convert_inch_to_centimeter() {
    assert_num(convert(1.0, "in", "cm"), 2.54);
}

#[test]
fn convert_byte_to_kbyte_si() {
    assert_num(convert(1024.0, "byte", "kbyte"), 1.024);
}

#[test]
fn convert_mibibyte_to_byte() {
    assert_num(convert(1.0, "Mibyte", "byte"), 1_048_576.0);
}

#[test]
fn convert_gibibit_to_bit() {
    assert_num(convert(1.0, "Gibit", "bit"), 1_073_741_824.0);
}

#[test]
fn convert_kibibyte_to_byte() {
    assert_num(convert(1.0, "kibyte", "byte"), 1024.0);
}

#[test]
fn convert_same_unit() {
    assert_num(convert(42.0, "m", "m"), 42.0);
}

#[test]
fn convert_liter_aliases() {
    assert_num(convert(1.0, "l", "lt"), 1.0);
    assert_num(convert(1.0, "L", "l"), 1.0);
}

#[test]
fn convert_cross_category_returns_na() {
    assert_eq!(conversion("kg", "m"), Err(CellError::Na));
    assert_eq!(conversion("C", "m"), Err(CellError::Na));
}

#[test]
fn convert_unknown_unit_returns_na() {
    assert_eq!(conversion("xyz", "m"), Err(CellError::Na));
    assert_eq!(conversion("m", "xyz"), Err(CellError::Na));
}

#[test]
fn convert_temperature_with_si_prefix_returns_na() {
    assert_eq!(conversion("kC", "F"), Err(CellError::Na));
}

#[test]
fn convert_exact_match_beats_prefix() {
    assert_num(convert(1.0, "ft", "m"), 0.3048);
    assert_num(convert(1.0, "T", "ga"), 10_000.0);
    assert_num(convert(1.0, "c", "J"), 4.184);
    assert_num(convert(1.0, "h", "W"), 745.699_871_582_27);
    assert_num(convert(1.0, "Pa", "atm"), 1.0 / 101_325.0);
}

#[test]
fn convert_stone_to_lbm() {
    assert_num(convert(1.0, "stone", "lbm"), 6.350_293_18 / 0.453_592_37);
}

#[test]
fn convert_ozm_to_g() {
    assert_num(convert(1.0, "ozm", "g"), 28.349_523_125);
}

#[test]
fn convert_nautical_mile_to_meter() {
    assert_num(convert(1.0, "Nmi", "m"), 1852.0);
}

#[test]
fn convert_year_to_day() {
    assert_num(convert(1.0, "yr", "day"), 365.25);
}

#[test]
fn convert_atm_to_psi() {
    assert_num(convert(1.0, "atm", "psi"), 101_325.0 / 6_894.757_293_168);
}

#[test]
fn convert_hectare_to_are() {
    assert_num(convert(1.0, "ha", "ar"), 100.0);
}

#[test]
fn convert_mph_to_mps() {
    assert_num(convert(1.0, "mph", "m/s"), 0.447_04);
}

#[test]
fn convert_temperature_aliases() {
    assert_num(convert(100.0, "cel", "fah"), 212.0);
    assert_num(convert(0.0, "kel", "cel"), -273.15);
}

#[test]
fn unit_names_resolve_exactly() {
    assert_eq!(
        parse_unit("lbm"),
        Some(Unit::Standard { category: Category::Weight, factor: Factor::Decimal(45_359_237, -8), prefix: None })
    );
    assert_eq!(
        parse_unit("km"),
        Some(Unit::Standard { category: Category::Distance, factor: Factor::Decimal(1, 0), prefix: Some(Factor::Decimal(1, 3)) })
    );
    assert_eq!(
        parse_unit("dam"),
        Some(Unit::Standard { category: Category::Distance, factor: Factor::Decimal(1, 0), prefix: Some(Factor::Decimal(1, 1)) })
    );
    assert_eq!(
        parse_unit("m/h"),
        Some(Unit::Standard { category: Category::Speed, factor: Factor::Ratio(1, 3600), prefix: None })
    );
    assert_eq!(parse_unit("Rank"), Some(Unit::Temp(TempUnit::Rankine)));
    assert_eq!(parse_unit("k"), None);
    assert_eq!(parse_unit(""), None);
    assert_eq!(parse_unit("KM"), None);
}

#[test]
fn unit_factors_are_positive_and_not_temperature() {
    let positive = |f: Factor| match f {
        Factor::Decimal(m, _) => m > 0,
        Factor::Ratio(n, d) => n > 0 && d > 0,
    };
    for name in ["g", "kg", "m", "km", "mi", "hr", "Pa", "N", "J", "W", "T", "l", "m2", "m/s", "bit", "kbyte", "ozm", "yr"] {
        match parse_unit(name) {
            Some(Unit::Standard { category, factor, prefix }) => {
                assert!(positive(factor), "{name}");
                assert!(category != Category::Temperature, "{name}");
                if let Some(p) = prefix {
                    assert!(positive(p), "{name}");
                }
            }
            other => panic!("{name}: {other:?}"),
        }
    }
    assert!(matches!(parse_unit("C"), Some(Unit::Temp(TempUnit::Celsius))));
}

#[test]
fn base_unit_lookup_is_exact_and_positive() {
    assert_eq!(
        xlstream::convert::lookup_base_unit("mi"),
        Some(UnitInfo::Standard { category: Category::Distance, factor: Factor::Decimal(1609344, -3) })
    );
    assert_eq!(xlstream::convert::lookup_base_unit("km"), None);
    assert_eq!(xlstream::convert::lookup_base_unit("C"), Some(UnitInfo::Temp(TempUnit::Celsius)));
}
