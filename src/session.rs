use vstd::prelude::*;

use crate::coord::{
    abs_text_len, is_number_text, latitude_in_range, latitude_ok, longitude_in_range, longitude_ok, read_coordinate, reading_of,
    Angle, Reading,
};
use crate::text::chars_of;

verus! {

/// A place whose forecast is asked for.
#[derive(Clone, Copy, Debug, PartialEq, Eq, Structural)]
pub struct Place {
    pub lat: Angle,
    pub lon: Angle,
}

/// Where a session stands: what the next line of input answers.
#[derive(Clone, Copy, Debug, PartialEq, Eq, Structural)]
pub enum Phase {
    /// The latitude of a new place is asked for.
    Latitude,
    /// The longitude is asked for; the latitude is known.
    Longitude(Angle),
    /// Whether another place follows is asked.
    Confirm,
    /// No more input is taken.
    Finished,
}

/// What the session does after a line of input.
#[derive(Clone, Copy, Debug, PartialEq, Eq, Structural)]
pub enum Step {
    /// The line was no number: say so and ask again.
    NotANumber,
    /// The number was not written in 7 or 8 characters: say so and ask again.
    BadFormat,
    /// The latitude is taken: ask for the longitude.
    AskLongitude,
    /// The place is taken: ask whether another follows.
    AskAnother,
    /// The answer was neither `y` nor `n`: ask again.
    BadAnswer,
    /// Another place follows: ask for its latitude.
    AskLatitude,
    /// The latitude is not strictly between -90 and 90: stop, fetch nothing.
    LatitudeOutOfRange,
    /// The longitude is not strictly between -180 and 180: stop, fetch nothing.
    LongitudeOutOfRange,
    /// No other place follows: fetch the forecast of each place, in order.
    Fetch,
    /// The session is over; the line is ignored.
    Finished,
}

/// `Some(true)` for `y`, `Some(false)` for `n`, either case; `None` otherwise.
pub open spec fn answer_of(s: Seq<char>) -> Option<bool> {
    if s == seq!['y'] || s == seq!['Y'] {
        Some(true)
    } else if s == seq!['n'] || s == seq!['N'] {
        Some(false)
    } else {
        None
    }
}

/// Reads an answer to whether another place follows.
pub fn read_answer(line: &str) -> (r: Option<bool>)
    ensures
        r == answer_of(line@),
{
    let cs = chars_of(line);
    if cs.len() != 1 {
        assert(cs@ != seq!['y'] && cs@ != seq!['Y'] && cs@ != seq!['n'] && cs@ != seq!['N']);
        return None;
    }
    let c = cs[0];
    assert(cs@ == seq![c]);
    if c == 'y' || c == 'Y' {
        Some(true)
    } else if c == 'n' || c == 'N' {
        Some(false)
    } else {
        None
    }
}

/// The phase, the places and the step after the line `line`.
pub open spec fn next(phase: Phase, places: Seq<Place>, line: Seq<char>) -> (Phase, Seq<Place>, Step) {
    match phase {
        Phase::Latitude => match reading_of(line) {
            Reading::NotANumber => (Phase::Latitude, places, Step::NotANumber),
            Reading::BadFormat => (Phase::Latitude, places, Step::BadFormat),
            Reading::Accepted(a) => if latitude_ok(a) {
                (Phase::Longitude(a), places, Step::AskLongitude)
            } else {
                (Phase::Finished, places, Step::LatitudeOutOfRange)
            },
        },
        Phase::Longitude(lat) => match reading_of(line) {
            Reading::NotANumber => (Phase::Longitude(lat), places, Step::NotANumber),
            Reading::BadFormat => (Phase::Longitude(lat), places, Step::BadFormat),
            Reading::Accepted(a) => if longitude_ok(a) {
                (Phase::Confirm, places.push(Place { lat, lon: a }), Step::AskAnother)
            } else {
                (Phase::Finished, places, Step::LongitudeOutOfRange)
            },
        },
        Phase::Confirm => match answer_of(line) {
            Some(true) => (Phase::Latitude, places, Step::AskLatitude),
            Some(false) => (Phase::Finished, places, Step::Fetch),
            None => (Phase::Confirm, places, Step::BadAnswer),
        },
        Phase::Finished => (Phase::Finished, places, Step::Finished),
    }
}

/// The steps taken on the lines `lines`, one after another, from `phase`
/// with `places` gathered.
pub open spec fn steps(phase: Phase, places: Seq<Place>, lines: Seq<Seq<char>>) -> Seq<Step>
    decreases lines.len(),
{
    if lines.len() == 0 {
        Seq::empty()
    } else {
        let (p, ps, s) = next(phase, places, lines[0]);
        seq![s] + steps(p, ps, lines.drop_first())
    }
}

/// A session that gathers places from lines of input.
pub struct Session {
    pub phase: Phase,
    pub places: Vec<Place>,
}

impl Session {
    /// Every place held is in range, and so is a latitude waiting for its
    /// longitude.
    pub open spec fn wf(&self) -> bool {
        &&& forall|i: int|
            0 <= i < self.places@.len() ==> latitude_ok(#[trigger] self.places@[i].lat)
                && longitude_ok(self.places@[i].lon)
        &&& match self.phase {
            Phase::Longitude(lat) => latitude_ok(lat),
            _ => true,
        }
    }

    /// A session that asks for the latitude of its first place.
    pub fn new() -> (r: Session)
        ensures
            r.phase == Phase::Latitude,
            r.places@.len() == 0,
            r.wf(),
    {
        Session { phase: Phase::Latitude, places: Vec::new() }
    }

    /// Takes one line of input.
    pub fn step(&mut self, line: &str) -> (r: Step)
        requires
            old(self).wf(),
        ensures
            final(self).wf(),
            (final(self).phase, final(self).places@, r) == next(
                old(self).phase,
                old(self).places@,
                line@,
            ),
    {
        match self.phase {
            Phase::Latitude => match read_coordinate(line) {
                Reading::NotANumber => Step::NotANumber,
                Reading::BadFormat => Step::BadFormat,
                Reading::Accepted(a) => {
                    if latitude_in_range(a) {
                        self.phase = Phase::Longitude(a);
                        Step::AskLongitude
                    } else {
                        self.phase = Phase::Finished;
                        Step::LatitudeOutOfRange
                    }
                },
            },
            Phase::Longitude(lat) => match read_coordinate(line) {
                Reading::NotANumber => Step::NotANumber,
                Reading::BadFormat => Step::BadFormat,
                Reading::Accepted(a) => {
                    if longitude_in_range(a) {
                        self.places.push(Place { lat, lon: a });
                        self.phase = Phase::Confirm;
                        Step::AskAnother
                    } else {
                        self.phase = Phase::Finished;
                        Step::LongitudeOutOfRange
                    }
                },
            },
            Phase::Confirm => match read_answer(line) {
                Some(true) => {
                    self.phase = Phase::Latitude;
                    Step::AskLatitude
                },
                Some(false) => {
                    self.phase = Phase::Finished;
                    Step::Fetch
                },
                None => Step::BadAnswer,
            },
            Phase::Finished => Step::Finished,
        }
    }
}

/// A number is taken for a coordinate exactly when its absolute value is
/// written in 7 or 8 characters; any other line leaves the session asking
/// for the same coordinate, with the places unchanged.
pub proof fn lemma_format_decides(phase: Phase, places: Seq<Place>, line: Seq<char>)
    requires
        phase is Latitude || phase is Longitude,
    ensures
        (reading_of(line) is Accepted) <==> (is_number_text(line) && 7 <= abs_text_len(line) <= 8),
        !(reading_of(line) is Accepted) ==> next(phase, places, line).0 == phase && next(
            phase,
            places,
            line,
        ).1 == places,
{
}

proof fn lemma_steps_len(phase: Phase, places: Seq<Place>, lines: Seq<Seq<char>>)
    ensures
        steps(phase, places, lines).len() == lines.len(),
    decreases lines.len(),
{
    if lines.len() > 0 {
        let (p, ps, st) = next(phase, places, lines[0]);
        lemma_steps_len(p, ps, lines.drop_first());
    }
}

/// From the latitude prompt, each line before the first one read in the
/// expected format is answered by asking again (saying whether it was no
/// number or a number in the wrong format), and that first line is taken as
/// the latitude, or ends the session where it is out of range.
pub proof fn lemma_first_good_line_decides(places: Seq<Place>, lines: Seq<Seq<char>>, j: int)
    requires
        0 <= j < lines.len(),
        forall|i: int| 0 <= i < j ==> !(#[trigger] reading_of(lines[i]) is Accepted),
        reading_of(lines[j]) is Accepted,
    ensures
        forall|i: int|
            0 <= i < j ==> #[trigger] steps(Phase::Latitude, places, lines)[i] == (if reading_of(
                lines[i],
            ) is NotANumber {
                Step::NotANumber
            } else {
                Step::BadFormat
            }),
        steps(Phase::Latitude, places, lines)[j] == (if latitude_ok(
            reading_of(lines[j])->Accepted_0,
        ) {
            Step::AskLongitude
        } else {
            Step::LatitudeOutOfRange
        }),
    decreases j,
{
    let rest = lines.drop_first();
    if j > 0 {
        assert(!(reading_of(lines[0]) is Accepted));
        assert forall|i: int| 0 <= i < j - 1 implies !(#[trigger] reading_of(rest[i]) is Accepted) by {
            assert(rest[i] == lines[i + 1]);
        }
        assert(rest[j - 1] == lines[j]);
        lemma_first_good_line_decides(places, rest, j - 1);
        let all = steps(Phase::Latitude, places, lines);
        let tail = steps(Phase::Latitude, places, rest);
        lemma_steps_len(Phase::Latitude, places, rest);
        assert(all == seq![all[0]] + tail);
        assert forall|i: int| 0 <= i < j implies #[trigger] all[i] == (if reading_of(
            lines[i],
        ) is NotANumber {
            Step::NotANumber
        } else {
            Step::BadFormat
        }) by {
            if i > 0 {
                assert(all[i] == tail[i - 1]);
                assert(rest[i - 1] == lines[i]);
            }
        }
        assert(all[j] == tail[j - 1]);
    }
}

proof fn lemma_finished_never_fetches(places: Seq<Place>, lines: Seq<Seq<char>>)
    ensures
        forall|i: int|
            0 <= i < steps(Phase::Finished, places, lines).len() ==> #[trigger] steps(
                Phase::Finished,
                places,
                lines,
            )[i] != Step::Fetch,
    decreases lines.len(),
{
    if lines.len() > 0 {
        lemma_finished_never_fetches(places, lines.drop_first());
    }
}

/// A latitude read in the expected format but not strictly between -90 and
/// 90 degrees ends the session: whatever lines follow, nothing is fetched.
pub proof fn lemma_bad_latitude_fetches_nothing(
    places: Seq<Place>,
    first: Seq<char>,
    rest: Seq<Seq<char>>,
)
    requires
        reading_of(first) is Accepted,
        !latitude_ok(reading_of(first)->Accepted_0),
    ensures
        steps(Phase::Latitude, places, seq![first] + rest)[0] == Step::LatitudeOutOfRange,
        forall|i: int|
            0 <= i < steps(Phase::Latitude, places, seq![first] + rest).len() ==> #[trigger] steps(
                Phase::Latitude,
                places,
                seq![first] + rest,
            )[i] != Step::Fetch,
{
    let lines = seq![first] + rest;
    assert(lines[0] == first);
    assert(lines.drop_first() =~= rest);
    lemma_finished_never_fetches(places, rest);
    assert(steps(Phase::Latitude, places, lines) == seq![Step::LatitudeOutOfRange] + steps(
        Phase::Finished,
        places,
        rest,
    ));
}

/// A longitude read in the expected format but not strictly between -180
/// and 180 degrees ends the session: whatever lines follow, nothing is
/// fetched.
pub proof fn lemma_bad_longitude_fetches_nothing(
    lat: Angle,
    places: Seq<Place>,
    first: Seq<char>,
    rest: Seq<Seq<char>>,
)
    requires
        reading_of(first) is Accepted,
        !longitude_ok(reading_of(first)->Accepted_0),
    ensures
        steps(Phase::Longitude(lat), places, seq![first] + rest)[0] == Step::LongitudeOutOfRange,
        forall|i: int|
            0 <= i < steps(Phase::Longitude(lat), places, seq![first] + rest).len()
                ==> #[trigger] steps(Phase::Longitude(lat), places, seq![first] + rest)[i]
                != Step::Fetch,
{
    let lines = seq![first] + rest;
    assert(lines[0] == first);
    assert(lines.drop_first() =~= rest);
    lemma_finished_never_fetches(places, rest);
    assert(steps(Phase::Longitude(lat), places, lines) == seq![Step::LongitudeOutOfRange] + steps(
        Phase::Finished,
        places,
        rest,
    ));
}

} // verus!
