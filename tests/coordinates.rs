use weather_cli::coord::{
    angle_string, latitude_in_range, longitude_in_range, read_coordinate, Angle, Reading,
};

fn accepted(micro: i64) -> Reading {
    Reading::Accepted(Angle { micro })
}

#[test]
fn seven_characters_are_accepted() {
    assert_eq!(read_coordinate("37.7749"), accepted(37774900));
    assert_eq!(read_coordinate("12.3456"), accepted(12345600));
}

#[test]
fn eight_characters_without_sign_are_accepted() {
    assert_eq!(read_coordinate("-122.4194"), accepted(-122419400));
    assert_eq!(read_coordinate("123.4567"), accepted(123456700));
    assert_eq!(read_coordinate("12345678"), accepted(12345678000000));
    assert_eq!(read_coordinate("0.000001"), accepted(1));
    assert_eq!(read_coordinate("-0.000001"), accepted(-1));
}

#[test]
fn too_short_or_too_long_is_bad_format() {
    assert_eq!(read_coordinate("5.1234"), Reading::BadFormat);
    assert_eq!(read_coordinate("123.45678"), Reading::BadFormat);
    assert_eq!(read_coordinate("123456789"), Reading::BadFormat);
    assert_eq!(read_coordinate("0.0000001"), Reading::BadFormat);
    assert_eq!(read_coordinate("90.0000"), Reading::BadFormat);
    assert_eq!(read_coordinate("0.000000"), Reading::BadFormat);
    assert_eq!(read_coordinate("-0.0"), Reading::BadFormat);
}

#[test]
fn length_is_of_the_shortest_text() {
    // trailing zeros after the point and leading zeros do not count
    assert_eq!(read_coordinate("37.77490"), accepted(37774900));
    assert_eq!(read_coordinate("037.7749"), accepted(37774900));
    assert_eq!(read_coordinate("+12.3456"), accepted(12345600));
    assert_eq!(read_coordinate("12.34560000000"), accepted(12345600));
}

#[test]
fn exponents_are_read() {
    assert_eq!(read_coordinate("3.77749e1"), accepted(37774900));
    assert_eq!(read_coordinate("1234567e-5"), accepted(12345670));
    assert_eq!(read_coordinate("12.3456E0"), accepted(12345600));
    assert_eq!(read_coordinate("1.5e-3"), Reading::BadFormat);
    assert_eq!(read_coordinate("1e400"), Reading::BadFormat);
    assert_eq!(read_coordinate("1e-400"), Reading::BadFormat);
    assert_eq!(read_coordinate("1e99999999999999999999999999999999999"), Reading::BadFormat);
    assert_eq!(read_coordinate("1e-99999999999999999999999999999999999"), Reading::BadFormat);
}

#[test]
fn infinity_and_nan_are_bad_format() {
    assert_eq!(read_coordinate("inf"), Reading::BadFormat);
    assert_eq!(read_coordinate("-Infinity"), Reading::BadFormat);
    assert_eq!(read_coordinate("NaN"), Reading::BadFormat);
}

#[test]
fn non_numbers_are_rejected() {
    assert_eq!(read_coordinate(""), Reading::NotANumber);
    assert_eq!(read_coordinate("abc"), Reading::NotANumber);
    assert_eq!(read_coordinate("."), Reading::NotANumber);
    assert_eq!(read_coordinate("-"), Reading::NotANumber);
    assert_eq!(read_coordinate("1e"), Reading::NotANumber);
    assert_eq!(read_coordinate("--12.3456"), Reading::NotANumber);
    assert_eq!(read_coordinate("12.34.56"), Reading::NotANumber);
    assert_eq!(read_coordinate("12,3456"), Reading::NotANumber);
    assert_eq!(read_coordinate("infinite"), Reading::NotANumber);
}

#[test]
fn latitude_range_is_open() {
    assert!(latitude_in_range(Angle { micro: 89999999 }));
    assert!(latitude_in_range(Angle { micro: -89999999 }));
    assert!(!latitude_in_range(Angle { micro: 90000000 }));
    assert!(!latitude_in_range(Angle { micro: -90000000 }));
    assert!(!latitude_in_range(Angle { micro: 123456700 }));
}

#[test]
fn longitude_range_is_open() {
    assert!(longitude_in_range(Angle { micro: -122419400 }));
    assert!(longitude_in_range(Angle { micro: 179999999 }));
    assert!(!longitude_in_range(Angle { micro: 180000000 }));
    assert!(!longitude_in_range(Angle { micro: -180000100 }));
}

#[test]
fn angles_print_as_plain_decimals() {
    assert_eq!(angle_string(Angle { micro: 37774900 }), "37.7749");
    assert_eq!(angle_string(Angle { micro: -122419400 }), "-122.4194");
    assert_eq!(angle_string(Angle { micro: 12345678000000 }), "12345678");
    assert_eq!(angle_string(Angle { micro: 1 }), "0.000001");
    assert_eq!(angle_string(Angle { micro: -1 }), "-0.000001");
    assert_eq!(angle_string(Angle { micro: 1500000 }), "1.5");
    assert_eq!(angle_string(Angle { micro: 0 }), "0");
}

#[test]
fn angle_text_matches_float_display() {
    for text in ["37.7749", "-122.4194", "0.000001", "12.34567", "1.234567", "99999999"] {
        let a = match read_coordinate(text) {
            Reading::Accepted(a) => a,
            other => panic!("{} gave {:?}", text, other),
        };
        let f: f64 = text.parse().unwrap();
        assert_eq!(angle_string(a), format!("{}", f));
    }
}
