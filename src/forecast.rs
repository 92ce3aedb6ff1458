use vstd::prelude::*;
use vstd::string::*;

use crate::coord::{angle_string, angle_text, Angle};
use crate::text::{chars_of, string_of};

verus! {

/// The request for one day of hourly temperature, precipitation chance,
/// precipitation and visibility at the given place.
pub open spec fn forecast_url_text(lat: Angle, lon: Angle) -> Seq<char> {
    "https://api.open-meteo.com/v1/forecast?latitude="@ + angle_text(lat) + "&longitude="@
        + angle_text(lon)
        + "&hourly=temperature_2m,precipitation_probability,precipitation,visibility&forecast_days=1"@
}

/// The address of the forecast for one place.
pub fn forecast_url(lat: Angle, lon: Angle) -> (r: String)
    ensures
        r@ == forecast_url_text(lat, lon),
{
    let mut r = String::from_str("https://api.open-meteo.com/v1/forecast?latitude=");
    let lat_s = angle_string(lat);
    r.append(lat_s.as_str());
    r.append("&longitude=");
    let lon_s = angle_string(lon);
    r.append(lon_s.as_str());
    r.append(
        "&hourly=temperature_2m,precipitation_probability,precipitation,visibility&forecast_days=1",
    );
    r
}

/// The index of the first `'T'` in `s` at or after `i`, or the length of `s`.
pub open spec fn first_t_from(s: Seq<char>, i: nat) -> nat
    decreases s.len() - i,
{
    if i < s.len() {
        if s[i as int] == 'T' {
            i
        } else {
            first_t_from(s, i + 1)
        }
    } else {
        s.len()
    }
}

/// The hour shown for a timestamp: what stands between its first `'T'` and
/// the next one (or the end), or `N/A` where it holds no `'T'`.
pub open spec fn hour_text(s: Seq<char>) -> Seq<char> {
    let a = first_t_from(s, 0);
    if a >= s.len() {
        "N/A"@
    } else {
        s.subrange((a + 1) as int, first_t_from(s, a + 1) as int)
    }
}

fn find_t(cs: &Vec<char>, i: usize) -> (r: usize)
    requires
        i <= cs@.len(),
    ensures
        r == first_t_from(cs@, i as nat),
        i <= r <= cs@.len(),
{
    let mut j: usize = i;
    while j < cs.len() && cs[j] != 'T'
        invariant
            i <= j <= cs@.len(),
            first_t_from(cs@, i as nat) == first_t_from(cs@, j as nat),
        decreases cs@.len() - j,
    {
        j = j + 1;
    }
    j
}

/// The hour part of a timestamp such as `2024-05-01T13:00`.
pub fn hour_of(timestamp: &str) -> (r: String)
    ensures
        r@ == hour_text(timestamp@),
{
    let cs = chars_of(timestamp);
    let a = find_t(&cs, 0);
    if a >= cs.len() {
        return String::from_str("N/A");
    }
    let b = find_t(&cs, a + 1);
    let mut v: Vec<char> = Vec::new();
    let mut k: usize = a + 1;
    while k < b
        invariant
            a + 1 <= k <= b,
            b <= cs@.len(),
            v@ == cs@.subrange(a + 1, k as int),
        decreases b - k,
    {
        v.push(cs[k]);
        k = k + 1;
    }
    string_of(&v)
}

/// `s` followed by spaces up to `w` characters, as left-aligned columns are
/// laid out; a longer `s` stays whole.
pub open spec fn padded(s: Seq<char>, w: nat) -> Seq<char> {
    if s.len() >= w {
        s
    } else {
        s + Seq::new((w - s.len()) as nat, |i: int| ' ')
    }
}

/// One line of the table: the hour in 8 columns, then the four values in
/// 10 columns each, a space between.
pub open spec fn row_text(
    hour: Seq<char>,
    temp: Seq<char>,
    prob: Seq<char>,
    rain: Seq<char>,
    vis: Seq<char>,
) -> Seq<char> {
    padded(hour, 8) + seq![' '] + padded(temp, 10) + seq![' '] + padded(prob, 10) + seq![' ']
        + padded(rain, 10) + seq![' '] + padded(vis, 10)
}

fn push_padded(v: &mut Vec<char>, s: &str, w: usize)
    ensures
        final(v)@ == old(v)@ + padded(s@, w as nat),
{
    let cs = chars_of(s);
    let ghost start = v@;
    let mut k: usize = 0;
    while k < cs.len()
        invariant
            k <= cs@.len(),
            cs@ == s@,
            v@ == start + cs@.subrange(0, k as int),
        decreases cs@.len() - k,
    {
        v.push(cs[k]);
        k = k + 1;
    }
    assert(cs@.subrange(0, cs@.len() as int) =~= cs@);
    let mut n: usize = cs.len();
    while n < w
        invariant
            cs@.len() <= n <= w || (n == cs@.len() && n >= w),
            v@ == start + s@ + Seq::new((n - s@.len()) as nat, |i: int| ' '),
            cs@ == s@,
        decreases w - n,
    {
        v.push(' ');
        n = n + 1;
        assert(v@ =~= start + s@ + Seq::new((n - s@.len()) as nat, |i: int| ' '));
    }
    assert(v@ =~= start + padded(s@, w as nat));
}

/// One line of the table, its five cells already written out.
pub fn format_row(hour: &str, temp: &str, prob: &str, rain: &str, vis: &str) -> (r: String)
    ensures
        r@ == row_text(hour@, temp@, prob@, rain@, vis@),
{
    let mut v: Vec<char> = Vec::new();
    push_padded(&mut v, hour, 8);
    v.push(' ');
    push_padded(&mut v, temp, 10);
    v.push(' ');
    push_padded(&mut v, prob, 10);
    v.push(' ');
    push_padded(&mut v, rain, 10);
    v.push(' ');
    push_padded(&mut v, vis, 10);
    assert(v@ =~= row_text(hour@, temp@, prob@, rain@, vis@));
    string_of(&v)
}

/// The text of each line.
pub open spec fn lines_view(v: Seq<String>) -> Seq<Seq<char>> {
    v.map_values(|l: String| l@)
}

/// The text of cell `i` of a column: the number as written where the entry
/// is a number, else `zero`; an entry past the column's end counts as no number.
pub open spec fn cell(col: Seq<Option<String>>, i: int, zero: Seq<char>) -> Seq<char> {
    if 0 <= i < col.len() {
        match col[i] {
            Some(t) => t@,
            None => zero,
        }
    } else {
        zero
    }
}

/// The table line for hour `i`, whose timestamp is `t`.
pub open spec fn row_at(
    t: Seq<char>,
    temp: Seq<Option<String>>,
    prob: Seq<Option<String>>,
    rain: Seq<Option<String>>,
    vis: Seq<Option<String>>,
    i: int,
) -> Seq<char> {
    row_text(
        hour_text(t),
        cell(temp, i, "0.0"@),
        cell(prob, i, "0"@),
        cell(rain, i, "0.0"@),
        cell(vis, i, "0"@),
    )
}

/// The table lines for the first `n` hours: one for each timestamp that is
/// text, in order.
pub open spec fn rows_upto(
    times: Seq<Option<String>>,
    temp: Seq<Option<String>>,
    prob: Seq<Option<String>>,
    rain: Seq<Option<String>>,
    vis: Seq<Option<String>>,
    n: nat,
) -> Seq<Seq<char>>
    decreases n,
{
    if n == 0 {
        Seq::empty()
    } else {
        let prev = rows_upto(times, temp, prob, rain, vis, (n - 1) as nat);
        match times[n - 1] {
            Some(t) => prev.push(row_at(t@, temp, prob, rain, vis, n - 1)),
            None => prev,
        }
    }
}

/// The table lines for all hours.
pub open spec fn rows_text(
    times: Seq<Option<String>>,
    temp: Seq<Option<String>>,
    prob: Seq<Option<String>>,
    rain: Seq<Option<String>>,
    vis: Seq<Option<String>>,
) -> Seq<Seq<char>> {
    rows_upto(times, temp, prob, rain, vis, times.len())
}

fn cell_string(col: &Vec<Option<String>>, i: usize, zero: &str) -> (r: String)
    ensures
        r@ == cell(col@, i as int, zero@),
{
    if i < col.len() {
        match &col[i] {
            Some(t) => t.clone(),
            None => String::from_str(zero),
        }
    } else {
        String::from_str(zero)
    }
}

/// The table lines, one for each timestamp that is text. Each column holds
/// the number of each hour as it is to be shown, or `None` where the entry
/// is no number; temperature and precipitation show such an entry as `0.0`,
/// precipitation chance and visibility as `0`.
pub fn table_rows(
    times: &Vec<Option<String>>,
    temp: &Vec<Option<String>>,
    prob: &Vec<Option<String>>,
    rain: &Vec<Option<String>>,
    vis: &Vec<Option<String>>,
) -> (r: Vec<String>)
    ensures
        lines_view(r@) == rows_text(times@, temp@, prob@, rain@, vis@),
{
    let mut r: Vec<String> = Vec::new();
    let mut i: usize = 0;
    while i < times.len()
        invariant
            i <= times@.len(),
            lines_view(r@) == rows_upto(times@, temp@, prob@, rain@, vis@, i as nat),
        decreases times@.len() - i,
    {
        match &times[i] {
            Some(t) => {
                let hour = hour_of(t.as_str());
                let c1 = cell_string(temp, i, "0.0");
                let c2 = cell_string(prob, i, "0");
                let c3 = cell_string(rain, i, "0.0");
                let c4 = cell_string(vis, i, "0");
                let line = format_row(hour.as_str(), c1.as_str(), c2.as_str(), c3.as_str(), c4.as_str());
                r.push(line);
                assert(lines_view(r@) =~= rows_upto(
                    times@,
                    temp@,
                    prob@,
                    rain@,
                    vis@,
                    (i + 1) as nat,
                ));
            },
            None => {},
        }
        i = i + 1;
    }
    r
}

/// Some entry of the column is a number.
pub open spec fn has_number(col: Seq<Option<String>>) -> bool {
    exists|i: int| 0 <= i < col.len() && #[trigger] col[i] is Some
}

fn any_number(col: &Vec<Option<String>>) -> (r: bool)
    ensures
        r == has_number(col@),
{
    let mut i: usize = 0;
    while i < col.len()
        invariant
            i <= col@.len(),
            forall|j: int| 0 <= j < i ==> !(#[trigger] col@[j] is Some),
        decreases col@.len() - i,
    {
        if col[i].is_some() {
            return true;
        }
        i = i + 1;
    }
    false
}

/// The summary is shown where there is at least one timestamp and each of
/// the temperature, precipitation chance and precipitation columns holds at
/// least one number.
pub open spec fn summary_shown(
    times: Seq<Option<String>>,
    temp: Seq<Option<String>>,
    prob: Seq<Option<String>>,
    rain: Seq<Option<String>>,
) -> bool {
    times.len() > 0 && has_number(temp) && has_number(prob) && has_number(rain)
}

/// Whether the summary is shown, as `summary_shown` says.
pub fn summary_due(
    times: &Vec<Option<String>>,
    temp: &Vec<Option<String>>,
    prob: &Vec<Option<String>>,
    rain: &Vec<Option<String>>,
) -> (r: bool)
    ensures
        r == summary_shown(times@, temp@, prob@, rain@),
{
    times.len() > 0 && any_number(temp) && any_number(prob) && any_number(rain)
}

/// The figures of the summary, each written out as it is to be shown.
pub struct SummaryFigures {
    pub avg_temp: String,
    pub max_prob: String,
    pub total_rain: String,
}

/// The line that opens a place's processing.
pub open spec fn location_text(lat: Angle, lon: Angle) -> Seq<char> {
    "Latitude: "@ + angle_text(lat) + ", Longitude: "@ + angle_text(lon)
}

/// The lines that open a forecast: a title, the place, and the table's head.
pub open spec fn header_text(lat: Angle, lon: Angle) -> Seq<Seq<char>> {
    seq![
        ""@,
        "=============== Weather Forecast ==============="@,
        "Location: ("@ + angle_text(lat) + ", "@ + angle_text(lon) + ")"@,
        "=============================================="@,
        row_text("Hour"@, "Temp(°C)"@, "Precip(%)"@, "Rain(mm)"@, "Vis(m)"@),
        "----------------------------------------------"@,
    ]
}

/// The lines of the summary.
pub open spec fn summary_text(avg: Seq<char>, max: Seq<char>, total: Seq<char>) -> Seq<Seq<char>> {
    seq![
        "=============================================="@,
        "SUMMARY:"@,
        "Avg Temperature: "@ + avg + "°C"@,
        "Max Precip Chance: "@ + max + "%"@,
        "Total Precipitation: "@ + total + " mm"@,
        "=============================================="@,
        ""@,
    ]
}

/// The whole forecast for one place: its head, the table, and the summary
/// where `summary_shown` holds and its figures are given.
pub open spec fn report_text(
    lat: Angle,
    lon: Angle,
    times: Seq<Option<String>>,
    temp: Seq<Option<String>>,
    prob: Seq<Option<String>>,
    rain: Seq<Option<String>>,
    vis: Seq<Option<String>>,
    summary: Option<SummaryFigures>,
) -> Seq<Seq<char>> {
    let tail = match summary {
        Some(f) => if summary_shown(times, temp, prob, rain) {
            summary_text(f.avg_temp@, f.max_prob@, f.total_rain@)
        } else {
            Seq::empty()
        },
        None => Seq::empty(),
    };
    header_text(lat, lon) + rows_text(times, temp, prob, rain, vis) + tail
}

/// The line that names the place whose forecast follows.
pub fn location_line(lat: Angle, lon: Angle) -> (r: String)
    ensures
        r@ == location_text(lat, lon),
{
    let mut r = String::from_str("Latitude: ");
    let a = angle_string(lat);
    r.append(a.as_str());
    r.append(", Longitude: ");
    let b = angle_string(lon);
    r.append(b.as_str());
    r
}

fn push_line(v: &mut Vec<String>, line: &str)
    ensures
        lines_view(final(v)@) == lines_view(old(v)@).push(line@),
{
    v.push(String::from_str(line));
    assert(lines_view(v@) =~= lines_view(old(v)@).push(line@));
}

/// The lines of the forecast for one place, as `report_text` lays them out.
pub fn report_lines(
    lat: Angle,
    lon: Angle,
    times: &Vec<Option<String>>,
    temp: &Vec<Option<String>>,
    prob: &Vec<Option<String>>,
    rain: &Vec<Option<String>>,
    vis: &Vec<Option<String>>,
    summary: &Option<SummaryFigures>,
) -> (r: Vec<String>)
    ensures
        lines_view(r@) == report_text(lat, lon, times@, temp@, prob@, rain@, vis@, *summary),
{
    let mut r: Vec<String> = Vec::new();
    push_line(&mut r, "");
    push_line(&mut r, "=============== Weather Forecast ===============");
    let mut place = String::from_str("Location: (");
    let a = angle_string(lat);
    place.append(a.as_str());
    place.append(", ");
    let b = angle_string(lon);
    place.append(b.as_str());
    place.append(")");
    push_line(&mut r, place.as_str());
    push_line(&mut r, "==============================================");
    let head = format_row("Hour", "Temp(°C)", "Precip(%)", "Rain(mm)", "Vis(m)");
    push_line(&mut r, head.as_str());
    push_line(&mut r, "----------------------------------------------");
    assert(lines_view(r@) =~= header_text(lat, lon));
    let ghost head_lines = lines_view(r@);
    let mut rows = table_rows(times, temp, prob, rain, vis);
    r.append(&mut rows);
    assert(lines_view(r@) =~= head_lines + rows_text(times@, temp@, prob@, rain@, vis@));
    let ghost body = lines_view(r@);
    match summary {
        Some(f) => {
            if summary_due(times, temp, prob, rain) {
                push_line(&mut r, "==============================================");
                push_line(&mut r, "SUMMARY:");
                let mut l1 = String::from_str("Avg Temperature: ");
                l1.append(f.avg_temp.as_str());
                l1.append("°C");
                push_line(&mut r, l1.as_str());
                let mut l2 = String::from_str("Max Precip Chance: ");
                l2.append(f.max_prob.as_str());
                l2.append("%");
                push_line(&mut r, l2.as_str());
                let mut l3 = String::from_str("Total Precipitation: ");
                l3.append(f.total_rain.as_str());
                l3.append(" mm");
                push_line(&mut r, l3.as_str());
                push_line(&mut r, "==============================================");
                push_line(&mut r, "");
                assert(lines_view(r@) =~= body + summary_text(
                    f.avg_temp@,
                    f.max_prob@,
                    f.total_rain@,
                ));
            } else {
                assert(lines_view(r@) =~= body + Seq::empty());
            }
        },
        None => {
            assert(lines_view(r@) =~= body + Seq::empty());
        },
    }
    r
}

proof fn lemma_rows_all_text(
    times: Seq<Option<String>>,
    temp: Seq<Option<String>>,
    prob: Seq<Option<String>>,
    rain: Seq<Option<String>>,
    vis: Seq<Option<String>>,
    n: nat,
)
    requires
        n <= times.len(),
        forall|i: int| 0 <= i < times.len() ==> #[trigger] times[i] is Some,
    ensures
        rows_upto(times, temp, prob, rain, vis, n).len() == n,
        forall|i: int|
            0 <= i < n ==> #[trigger] rows_upto(times, temp, prob, rain, vis, n)[i] == row_at(
                times[i]->Some_0@,
                temp,
                prob,
                rain,
                vis,
                i,
            ),
    decreases n,
{
    if n > 0 {
        lemma_rows_all_text(times, temp, prob, rain, vis, (n - 1) as nat);
        assert(times[n - 1] is Some);
    }
}

/// Where every one of the `N` timestamps is text, the table has exactly `N`
/// lines, and line `i` shows the hour of timestamp `i` and the four values
/// of hour `i`.
pub proof fn lemma_one_row_per_hour(
    times: Seq<Option<String>>,
    temp: Seq<Option<String>>,
    prob: Seq<Option<String>>,
    rain: Seq<Option<String>>,
    vis: Seq<Option<String>>,
)
    requires
        forall|i: int| 0 <= i < times.len() ==> #[trigger] times[i] is Some,
    ensures
        rows_text(times, temp, prob, rain, vis).len() == times.len(),
        forall|i: int|
            0 <= i < times.len() ==> #[trigger] rows_text(times, temp, prob, rain, vis)[i]
                == row_text(
                hour_text(times[i]->Some_0@),
                cell(temp, i, "0.0"@),
                cell(prob, i, "0"@),
                cell(rain, i, "0.0"@),
                cell(vis, i, "0"@),
            ),
{
    lemma_rows_all_text(times, temp, prob, rain, vis, times.len());
}

/// With no timestamps the forecast is its head alone: no table line and no
/// summary, whatever the other columns and the figures hold.
pub proof fn lemma_no_hours_head_only(
    lat: Angle,
    lon: Angle,
    temp: Seq<Option<String>>,
    prob: Seq<Option<String>>,
    rain: Seq<Option<String>>,
    vis: Seq<Option<String>>,
    summary: Option<SummaryFigures>,
)
    ensures
        report_text(lat, lon, Seq::empty(), temp, prob, rain, vis, summary) == header_text(
            lat,
            lon,
        ),
{
    assert(report_text(lat, lon, Seq::empty(), temp, prob, rain, vis, summary) =~= header_text(
        lat,
        lon,
    ));
}

} // verus!
