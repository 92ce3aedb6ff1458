use weather_cli::coord::Angle;
use weather_cli::forecast::{
    forecast_url, format_row, hour_of, location_line, report_lines, summary_due, table_rows,
    SummaryFigures,
};

fn texts(v: &[Option<&str>]) -> Vec<Option<String>> {
    v.iter().map(|c| c.map(|s| s.to_string())).collect()
}

#[test]
fn url_holds_both_coordinates() {
    let url = forecast_url(Angle { micro: 37774900 }, Angle { micro: -122419400 });
    assert_eq!(
        url,
        "https://api.open-meteo.com/v1/forecast?latitude=37.7749&longitude=-122.4194&hourly=temperature_2m,precipitation_probability,precipitation,visibility&forecast_days=1"
    );
}

#[test]
fn hour_is_after_the_t() {
    assert_eq!(hour_of("2024-05-01T13:00"), "13:00");
    assert_eq!(hour_of("2024-05-01"), "N/A");
    assert_eq!(hour_of("aTbTc"), "b");
    assert_eq!(hour_of("abcT"), "");
    assert_eq!(hour_of(""), "N/A");
}

#[test]
fn row_is_laid_out_in_columns() {
    let row = format_row("13:00", "12.3", "40", "0.1", "24140");
    let expected = format!(
        "{:<8} {:<10} {:<10} {:<10} {:<10}",
        "13:00", "12.3", "40", "0.1", "24140"
    );
    assert_eq!(row, expected);
    let head = format_row("Hour", "Temp(°C)", "Precip(%)", "Rain(mm)", "Vis(m)");
    let expected = format!(
        "{:<8} {:<10} {:<10} {:<10} {:<10}",
        "Hour", "Temp(°C)", "Precip(%)", "Rain(mm)", "Vis(m)"
    );
    assert_eq!(head, expected);
    let long = format_row("123456789", "a", "b", "c", "d");
    assert!(long.starts_with("123456789 a "));
}

#[test]
fn one_row_per_text_timestamp() {
    let times = texts(&[Some("2024-05-01T00:00"), None, Some("2024-05-01T02:00")]);
    let temp = texts(&[Some("10.5"), Some("11.0"), None]);
    let prob = texts(&[Some("5"), Some("6"), Some("7")]);
    let rain = texts(&[Some("0.0"), Some("0.2")]);
    let vis = texts(&[Some("24140"), Some("24000"), Some("23000")]);
    let rows = table_rows(&times, &temp, &prob, &rain, &vis);
    assert_eq!(rows.len(), 2);
    assert_eq!(rows[0], format_row("00:00", "10.5", "5", "0.0", "24140"));
    assert_eq!(rows[1], format_row("02:00", "0.0", "7", "0.0", "23000"));
}

#[test]
fn n_timestamps_give_n_rows() {
    let times = texts(&[Some("dT01:00"), Some("dT02:00"), Some("dT03:00"), Some("dT04:00")]);
    let col = texts(&[Some("1"), Some("2"), Some("3"), Some("4")]);
    let rows = table_rows(&times, &col, &col, &col, &col);
    assert_eq!(rows.len(), 4);
    assert_eq!(rows[3], format_row("04:00", "4", "4", "4", "4"));
}

#[test]
fn summary_needs_a_number_in_each_column() {
    let some = texts(&[None, Some("1.0")]);
    let none = texts(&[None, None]);
    let empty = texts(&[]);
    let times = texts(&[Some("dT00:00"), Some("dT01:00")]);
    assert!(summary_due(&times, &some, &some, &some));
    assert!(!summary_due(&times, &some, &none, &some));
    assert!(!summary_due(&times, &some, &some, &empty));
    assert!(!summary_due(&times, &empty, &some, &some));
    assert!(!summary_due(&empty, &some, &some, &some));
}

fn figures() -> Option<SummaryFigures> {
    Some(SummaryFigures {
        avg_temp: "11.2".to_string(),
        max_prob: "40".to_string(),
        total_rain: "1.5".to_string(),
    })
}

#[test]
fn no_hours_give_the_head_alone() {
    let empty = texts(&[]);
    let lines = report_lines(
        Angle { micro: 37774900 },
        Angle { micro: -122419400 },
        &empty,
        &empty,
        &empty,
        &empty,
        &empty,
        &figures(),
    );
    assert_eq!(lines.len(), 6);
    assert_eq!(lines[0], "");
    assert_eq!(lines[1], "=============== Weather Forecast ===============");
    assert_eq!(lines[2], "Location: (37.7749, -122.4194)");
    assert_eq!(lines[5], "----------------------------------------------");
    assert!(!lines.iter().any(|l| l == "SUMMARY:"));
}

#[test]
fn no_hours_give_no_summary_whatever_the_columns() {
    let empty = texts(&[]);
    let col = texts(&[Some("1.0"), Some("2.0")]);
    let lines = report_lines(
        Angle { micro: 37774900 },
        Angle { micro: -122419400 },
        &empty,
        &col,
        &col,
        &col,
        &col,
        &figures(),
    );
    assert_eq!(lines.len(), 6);
    assert_eq!(lines[1], "=============== Weather Forecast ===============");
    assert_eq!(lines[5], "----------------------------------------------");
    assert!(!lines.iter().any(|l| l == "SUMMARY:"));
}

#[test]
fn report_ends_with_the_summary() {
    let times = texts(&[Some("2024-05-01T00:00")]);
    let temp = texts(&[Some("11.2")]);
    let prob = texts(&[Some("40")]);
    let rain = texts(&[Some("1.5")]);
    let vis = texts(&[Some("24140")]);
    let lines = report_lines(
        Angle { micro: 1000000 },
        Angle { micro: -2500000 },
        &times,
        &temp,
        &prob,
        &rain,
        &vis,
        &figures(),
    );
    assert_eq!(lines.len(), 14);
    assert_eq!(lines[2], "Location: (1, -2.5)");
    assert_eq!(lines[6], format_row("00:00", "11.2", "40", "1.5", "24140"));
    assert_eq!(lines[8], "SUMMARY:");
    assert_eq!(lines[9], "Avg Temperature: 11.2°C");
    assert_eq!(lines[10], "Max Precip Chance: 40%");
    assert_eq!(lines[11], "Total Precipitation: 1.5 mm");
    assert_eq!(lines[13], "");
    let without = report_lines(
        Angle { micro: 1000000 },
        Angle { micro: -2500000 },
        &times,
        &temp,
        &prob,
        &rain,
        &vis,
        &None,
    );
    assert_eq!(without.len(), 7);
}

#[test]
fn location_line_names_the_place() {
    assert_eq!(
        location_line(Angle { micro: 37774900 }, Angle { micro: -122419400 }),
        "Latitude: 37.7749, Longitude: -122.4194"
    );
}
