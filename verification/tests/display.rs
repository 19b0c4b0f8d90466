use tree_tables::display::{decimal_text, format_number, group_text};

fn format_float_in_floating_point(mut x: f64, unit: Option<&str>, show_decimal: bool) -> String {
    if !show_decimal {
        x = x.round();
    }
    let int_part: i64 = x as i64;
    let int_str = int_part
        .to_string()
        .as_bytes()
        .rchunks(3)
        .rev()
        .map(std::str::from_utf8)
        .collect::<Result<Vec<&str>, _>>()
        .unwrap()
        .join(".");
    let suffix = if unit.is_some() { " ".to_owned() + unit.unwrap() } else { "".to_owned() };
    if !show_decimal {
        int_str + suffix.as_str()
    } else {
        let decimal_part = x - int_part as f64;
        let decimal_part_int = (decimal_part * 100.0).round() as i64;
        int_str + "," + format!("{:02}", decimal_part_int).as_str() + suffix.as_str()
    }
}

fn format_float(mut x: f64, unit: Option<&str>, show_decimal: bool) -> String {
    if !show_decimal {
        x = x.round();
    }
    let int_part: i64 = x as i64;
    if !show_decimal {
        format_number(int_part, None, unit)
    } else {
        let decimal_part = x - int_part as f64;
        let decimal_part_int = (decimal_part * 100.0).round() as i64;
        format_number(int_part, Some(decimal_part_int), unit)
    }
}

#[test]
fn whole_numbers_in_groups_of_three() {
    assert_eq!(format_number(0, None, None), "0");
    assert_eq!(format_number(7, None, None), "7");
    assert_eq!(format_number(999, None, None), "999");
    assert_eq!(format_number(1000, None, None), "1.000");
    assert_eq!(format_number(12345, None, None), "12.345");
    assert_eq!(format_number(1234567, None, None), "1.234.567");
    assert_eq!(format_number(i64::MAX, None, None), "9.223.372.036.854.775.807");
}

#[test]
fn sign_counts_as_a_character() {
    assert_eq!(format_number(-1, None, None), "-1");
    assert_eq!(format_number(-12, None, None), "-12");
    assert_eq!(format_number(-123, None, None), "-.123");
    assert_eq!(format_number(-1234, None, None), "-1.234");
    assert_eq!(format_number(-123456, None, None), "-.123.456");
    assert_eq!(format_number(i64::MIN, None, None), "-9.223.372.036.854.775.808");
}

#[test]
fn hundredths_and_unit() {
    assert_eq!(format_number(0, Some(5), Some("€")), "0,05 €");
    assert_eq!(format_number(1234, Some(50), Some("h")), "1.234,50 h");
    assert_eq!(format_number(12, Some(0), None), "12,00");
    assert_eq!(format_number(12, Some(99), None), "12,99");
    assert_eq!(format_number(1, Some(100), None), "1,100");
    assert_eq!(format_number(-3, Some(-5), None), "-3,-5");
    assert_eq!(format_number(-3, Some(-25), Some("")), "-3,-25 ");
    assert_eq!(format_number(5, None, Some("€")), "5 €");
}

#[test]
fn decimal_and_grouping_alone() {
    assert_eq!(decimal_text(0), "0");
    assert_eq!(decimal_text(10), "10");
    assert_eq!(decimal_text(-10), "-10");
    assert_eq!(decimal_text(9007199254740993), "9007199254740993");
    assert_eq!(group_text(""), "");
    assert_eq!(group_text("abc"), "abc");
    assert_eq!(group_text("abcd"), "a.bcd");
    assert_eq!(group_text("äöüßéè"), "äöü.ßéè");
}

#[test]
fn same_as_formatting_in_floating_point() {
    let samples = [
        0.0, 1.0, -1.0, 0.004, 0.005, 0.995, 1.5, 2.5, 999.5, 1000.0, 1234.5678, -0.25, -12.345,
        -999.999, 123456789.125, -123456.0, 1e15, -1e15, 1e19, -1e19, 0.1 + 0.2,
    ];
    for x in samples {
        for unit in [None, Some("€"), Some("h")] {
            for show_decimal in [false, true] {
                assert_eq!(
                    format_float(x, unit, show_decimal),
                    format_float_in_floating_point(x, unit, show_decimal),
                    "{} {:?} {}",
                    x,
                    unit,
                    show_decimal
                );
            }
        }
    }
}
