use weather_cli::coord::Angle;
use weather_cli::forecast::forecast_url;
use weather_cli::session::{read_answer, Phase, Place, Session, Step};

#[test]
fn one_place_then_no() {
    let mut s = Session::new();
    assert_eq!(s.step("37.7749"), Step::AskLongitude);
    assert_eq!(s.step("-122.4194"), Step::AskAnother);
    assert_eq!(s.step("n"), Step::Fetch);
    assert_eq!(s.phase, Phase::Finished);
    assert_eq!(s.places.len(), 1);
    let p = s.places[0];
    assert_eq!(
        p,
        Place { lat: Angle { micro: 37774900 }, lon: Angle { micro: -122419400 } }
    );
    assert_eq!(
        forecast_url(p.lat, p.lon),
        "https://api.open-meteo.com/v1/forecast?latitude=37.7749&longitude=-122.4194&hourly=temperature_2m,precipitation_probability,precipitation,visibility&forecast_days=1"
    );
}

#[test]
fn bad_lines_ask_again() {
    let mut s = Session::new();
    assert_eq!(s.step("abc"), Step::NotANumber);
    assert_eq!(s.step("5.1234"), Step::BadFormat);
    assert_eq!(s.phase, Phase::Latitude);
    assert_eq!(s.step("12.3456"), Step::AskLongitude);
    assert_eq!(s.step("x"), Step::NotANumber);
    assert_eq!(s.step("1.2"), Step::BadFormat);
    assert_eq!(s.phase, Phase::Longitude(Angle { micro: 12345600 }));
    assert_eq!(s.step("123.4567"), Step::AskAnother);
    assert_eq!(s.step("maybe"), Step::BadAnswer);
    assert_eq!(s.phase, Phase::Confirm);
    assert_eq!(s.step("N"), Step::Fetch);
}

#[test]
fn yes_gathers_another_place() {
    let mut s = Session::new();
    s.step("37.7749");
    s.step("-122.4194");
    assert_eq!(s.step("Y"), Step::AskLatitude);
    assert_eq!(s.step("-33.8688"), Step::AskLongitude);
    assert_eq!(s.step("151.2093"), Step::AskAnother);
    assert_eq!(s.step("n"), Step::Fetch);
    assert_eq!(s.places.len(), 2);
    assert_eq!(s.places[1].lat, Angle { micro: -33868800 });
    assert_eq!(s.places[1].lon, Angle { micro: 151209300 });
}

#[test]
fn latitude_out_of_range_ends_without_fetch() {
    let mut s = Session::new();
    assert_eq!(s.step("90.00001"), Step::LatitudeOutOfRange);
    assert_eq!(s.phase, Phase::Finished);
    assert_eq!(s.step("n"), Step::Finished);
    assert!(s.places.is_empty());
    let mut s = Session::new();
    assert_eq!(s.step("-95.1234"), Step::LatitudeOutOfRange);
}

#[test]
fn longitude_out_of_range_ends_without_fetch() {
    let mut s = Session::new();
    s.step("12.3456");
    assert_eq!(s.step("180.0001"), Step::LongitudeOutOfRange);
    assert_eq!(s.phase, Phase::Finished);
    assert_eq!(s.step("n"), Step::Finished);
    assert!(s.places.is_empty());
}

#[test]
fn answers_in_either_case() {
    assert_eq!(read_answer("y"), Some(true));
    assert_eq!(read_answer("Y"), Some(true));
    assert_eq!(read_answer("n"), Some(false));
    assert_eq!(read_answer("N"), Some(false));
    assert_eq!(read_answer("yes"), None);
    assert_eq!(read_answer(""), None);
}
