//! Records of the mboxrd format, and how one is appended to a mailbox.

use vstd::prelude::*;
use vstd::slice::{slice_subrange, slice_to_vec};
use vstd::string::*;
use vstd::utf8::*;

use crate::config::recipe::OutputEnding;
use crate::delivery::calendar::{civil_from_days, CivilDate};
use crate::delivery::failure::IoError;
use crate::delivery::sink::{self, lemma_partly_written, lemma_piece_failed, write_all, ByteSink};
use crate::message::{self, find_line_end};
use crate::text::{self, text2, text3, text_bytes};

verus! {

pub const MAX_POSTMARK_LEN: usize = 512;

/// The line that starts a record.
#[derive(Debug, PartialEq, Eq)]
pub struct Postmark {
    bytes: Vec<u8>,
}

impl View for Postmark {
    type V = Seq<u8>;

    closed spec fn view(&self) -> Seq<u8> {
        self.bytes@
    }
}

/// Why a line cannot start a record.
#[derive(Debug, Clone, Copy, PartialEq, Eq, Structural)]
pub enum PostmarkError {
    TooLong,
    InvalidShape,
    NonAscii,
    TimeBeforeEpoch,
    TimeOutOfRange,
}

impl PostmarkError {
    pub open spec fn spelled(self) -> Seq<char> {
        match self {
            PostmarkError::TooLong => "mbox postmark exceeds its hard limit"@,
            PostmarkError::InvalidShape => "mbox postmark must be one LF-terminated 'From ' line"@,
            PostmarkError::NonAscii => "mbox postmark must contain only printable ASCII"@,
            PostmarkError::TimeBeforeEpoch => "cannot generate mbox postmark before the Unix epoch"@,
            PostmarkError::TimeOutOfRange => "cannot represent timestamp in mbox postmark"@,
        }
    }

    /// The error as it is shown.
    pub fn to_text(self) -> (r: &'static str)
        ensures
            r@ == self.spelled(),
    {
        match self {
            PostmarkError::TooLong => "mbox postmark exceeds its hard limit",
            PostmarkError::InvalidShape => "mbox postmark must be one LF-terminated 'From ' line",
            PostmarkError::NonAscii => "mbox postmark must contain only printable ASCII",
            PostmarkError::TimeBeforeEpoch => "cannot generate mbox postmark before the Unix epoch",
            PostmarkError::TimeOutOfRange => "cannot represent timestamp in mbox postmark",
        }
    }
}

/// The bytes of `From` and a blank.
pub open spec fn from_word() -> Seq<u8> {
    seq![70u8, 114u8, 111u8, 109u8, 32u8]
}

/// Whether these bytes start with `From` and a blank at `start`.
pub open spec fn from_at(bytes: Seq<u8>, start: int) -> bool {
    0 <= start && start + 5 <= bytes.len() && bytes.subrange(start, start + 5) == from_word()
}

fn starts_with_from(bytes: &[u8], start: usize) -> (r: bool)
    requires
        start <= bytes@.len(),
    ensures
        r == from_at(bytes@, start as int),
{
    if bytes.len() - start < 5 {
        return false;
    }
    let found = bytes[start] == 70 && bytes[start + 1] == 114 && bytes[start + 2] == 111
        && bytes[start + 3] == 109 && bytes[start + 4] == 32;
    proof {
        let part = bytes@.subrange(start as int, start + 5);
        if found {
            assert(part =~= from_word());
        } else if part == from_word() {
            assert(part[0] == 70 && part[1] == 114 && part[2] == 111 && part[3] == 109 && part[4]
                == 32);
        }
    }
    found
}

/// Whether a byte is a printable character of ASCII.
pub open spec fn printable(byte: u8) -> bool {
    32 <= byte <= 126
}

/// Whether all bytes but the last are printable.
pub open spec fn printable_line(bytes: Seq<u8>) -> bool {
    forall|i: int| 0 <= i < bytes.len() - 1 ==> printable(#[trigger] bytes[i])
}

/// Whether the bytes are one line, with a line feed at its end and nowhere
/// else.
pub open spec fn one_line(bytes: Seq<u8>) -> bool {
    bytes.len() > 0 && bytes.last() == 10 && forall|i: int|
        0 <= i < bytes.len() - 1 ==> #[trigger] bytes[i] != 10
}

/// Why these bytes cannot start a record.
pub open spec fn postmark_fault(bytes: Seq<u8>) -> Option<PostmarkError> {
    if bytes.len() > MAX_POSTMARK_LEN {
        Some(PostmarkError::TooLong)
    } else if !from_at(bytes, 0) || !one_line(bytes) {
        Some(PostmarkError::InvalidShape)
    } else if !printable_line(bytes) {
        Some(PostmarkError::NonAscii)
    } else {
        None
    }
}

/// The English name of a weekday, counted from the one on which 1970 began.
pub open spec fn weekday_name(n: int) -> Seq<char> {
    if n == 0 {
        "Thu"@
    } else if n == 1 {
        "Fri"@
    } else if n == 2 {
        "Sat"@
    } else if n == 3 {
        "Sun"@
    } else if n == 4 {
        "Mon"@
    } else if n == 5 {
        "Tue"@
    } else {
        "Wed"@
    }
}

fn weekday(n: u64) -> (r: &'static str)
    ensures
        r@ == weekday_name(n as int),
{
    match n {
        0 => "Thu",
        1 => "Fri",
        2 => "Sat",
        3 => "Sun",
        4 => "Mon",
        5 => "Tue",
        _ => "Wed",
    }
}

/// The English name of a month.
pub open spec fn month_name(n: int) -> Seq<char> {
    if n == 1 {
        "Jan"@
    } else if n == 2 {
        "Feb"@
    } else if n == 3 {
        "Mar"@
    } else if n == 4 {
        "Apr"@
    } else if n == 5 {
        "May"@
    } else if n == 6 {
        "Jun"@
    } else if n == 7 {
        "Jul"@
    } else if n == 8 {
        "Aug"@
    } else if n == 9 {
        "Sep"@
    } else if n == 10 {
        "Oct"@
    } else if n == 11 {
        "Nov"@
    } else {
        "Dec"@
    }
}

fn month(n: u64) -> (r: &'static str)
    ensures
        r@ == month_name(n as int),
{
    match n {
        1 => "Jan",
        2 => "Feb",
        3 => "Mar",
        4 => "Apr",
        5 => "May",
        6 => "Jun",
        7 => "Jul",
        8 => "Aug",
        9 => "Sep",
        10 => "Oct",
        11 => "Nov",
        _ => "Dec",
    }
}

/// A number in at least two places.
pub open spec fn two_places(n: nat, filler: Seq<char>) -> Seq<char> {
    if n < 10 {
        filler + text::decimal(n)
    } else {
        text::decimal(n)
    }
}

fn in_two_places(n: u64, filler: &str) -> (r: String)
    ensures
        r@ == two_places(n as nat, filler@),
{
    let mut digits = String::new();
    assert(digits@ =~= Seq::<char>::empty());
    text::push_decimal(&mut digits, n);
    assert(digits@ =~= text::decimal(n as nat));
    if n < 10 {
        text2(filler, digits.as_str())
    } else {
        digits
    }
}

/// A date and a time of day as postmarks show them.
pub open spec fn shown_time(weekday: int, date: CivilDate, seconds_in_day: nat) -> Seq<char> {
    weekday_name(weekday) + " "@ + month_name(date.month as int) + " "@ + two_places(
        date.day as nat,
        " "@,
    ) + " "@ + two_places(seconds_in_day / 3600, "0"@) + ":"@ + two_places(
        (seconds_in_day % 3600) / 60,
        "0"@,
    ) + ":"@ + two_places(seconds_in_day % 60, "0"@) + " "@ + text::decimal(date.year as nat)
}

/// Whether a line is the postmark of a moment so many seconds after the start
/// of 1970.
pub open spec fn marks_time(line: Seq<char>, seconds: nat) -> bool {
    exists|date: CivilDate| #[trigger] marks_date(line, seconds, date)
}

/// Whether a line is the postmark of a moment, which is on this date.
pub open spec fn marks_date(line: Seq<char>, seconds: nat, date: CivilDate) -> bool {
    let days = seconds / 86400;
    date.exists_in_calendar() && date.day_number() == days && line == "From MAILER-DAEMON "@
        + shown_time((days % 7) as int, date, seconds % 86400) + "\n"@
}

fn show_time(n: u64, date: CivilDate, seconds_in_day: u64) -> (r: String)
    requires
        seconds_in_day < 86400,
    ensures
        r@ == shown_time(n as int, date, seconds_in_day as nat),
{
    let mut year = String::new();
    assert(year@ =~= Seq::<char>::empty());
    text::push_decimal(&mut year, date.year);
    assert(year@ =~= text::decimal(date.year as nat));
    let mut line = text3(weekday(n), " ", month(date.month));
    line = text3(line.as_str(), " ", in_two_places(date.day, " ").as_str());
    line = text3(line.as_str(), " ", in_two_places(seconds_in_day / 3600, "0").as_str());
    line = text3(line.as_str(), ":", in_two_places(seconds_in_day % 3600 / 60, "0").as_str());
    line = text3(line.as_str(), ":", in_two_places(seconds_in_day % 60, "0").as_str());
    text3(line.as_str(), " ", year.as_str())
}

impl Postmark {
    /// Makes a postmark of a line that can be one.
    pub fn new(bytes: &[u8]) -> (r: Result<Self, PostmarkError>)
        ensures
            match postmark_fault(bytes@) {
                None => r matches Ok(postmark) && postmark@ == bytes@,
                Some(error) => r == Err::<Self, PostmarkError>(error),
            },
    {
        let length = bytes.len();
        if length > MAX_POSTMARK_LEN {
            return Err(PostmarkError::TooLong);
        }
        if !starts_with_from(bytes, 0) || bytes[length - 1] != 10 {
            return Err(PostmarkError::InvalidShape);
        }
        let mut is_printable = true;
        let mut i: usize = 0;
        while i < length - 1
            invariant
                length == bytes@.len(),
                5 <= length <= MAX_POSTMARK_LEN,
                i <= length - 1,
                from_at(bytes@, 0),
                bytes@.last() == 10,
                forall|j: int| 0 <= j < i ==> #[trigger] bytes@[j] != 10,
                is_printable == forall|j: int| 0 <= j < i ==> printable(#[trigger] bytes@[j]),
            decreases length - i,
        {
            if bytes[i] == 10 {
                return Err(PostmarkError::InvalidShape);
            }
            if bytes[i] < 32 || bytes[i] > 126 {
                assert(!printable(bytes@[i as int]));
                is_printable = false;
            }
            i = i + 1;
        }
        if !is_printable {
            return Err(PostmarkError::NonAscii);
        }
        Ok(Postmark { bytes: slice_to_vec(bytes) })
    }

    pub fn as_bytes(&self) -> (r: &[u8])
        ensures
            r@ == self@,
    {
        self.bytes.as_slice()
    }

    /// The postmark of a moment, given in seconds since the start of 1970.
    pub fn generated(seconds: i64) -> (r: Result<Self, PostmarkError>)
        ensures
            if seconds < 0 {
                r == Err::<Self, PostmarkError>(PostmarkError::TimeBeforeEpoch)
            } else {
                r matches Ok(postmark) && exists|line: Seq<char>| #[trigger]
                    marks_time(line, seconds as nat) && postmark@ == encode_utf8(line)
            },
    {
        if seconds < 0 {
            return Err(PostmarkError::TimeBeforeEpoch);
        }
        let moment: u64 = seconds as u64;
        let days: u64 = moment / 86_400;
        let date = civil_from_days(days);
        let shown = show_time(days % 7, date, moment % 86_400);
        let line = text3("From MAILER-DAEMON ", shown.as_str(), "\n");
        let bytes = text_bytes(line.as_str());
        proof {
            assert(marks_date(line@, seconds as nat, date));
            assert(marks_time(line@, seconds as nat));
            lemma_generated_is_valid(line@, seconds as nat, date);
        }
        Postmark::new(bytes.as_slice())
    }
}

/// Whether all characters are printable ones of ASCII.
spec fn printable_text(chars: Seq<char>) -> bool {
    forall|i: int| 0 <= i < chars.len() ==> ' ' <= #[trigger] chars[i] <= '~'
}

/// A power of ten.
spec fn power_of_ten(k: nat) -> nat
    decreases k,
{
    if k == 0 {
        1
    } else {
        10 * power_of_ten((k - 1) as nat)
    }
}

proof fn lemma_decimal_printable(n: nat, places: nat)
    requires
        n < power_of_ten(places),
        places > 0,
    ensures
        printable_text(text::decimal(n)),
        text::decimal(n).len() <= places,
    decreases places,
{
    reveal_with_fuel(text::decimal, 2);
    reveal_with_fuel(power_of_ten, 2);
    if n >= 10 {
        lemma_decimal_printable(n / 10, (places - 1) as nat);
    }
}

proof fn lemma_two_places_printable(n: nat, filler: Seq<char>)
    requires
        n < 100,
        filler.len() == 1,
        printable_text(filler),
    ensures
        printable_text(two_places(n, filler)),
        two_places(n, filler).len() <= 3,
{
    reveal_with_fuel(power_of_ten, 4);
    lemma_decimal_printable(n, 2);
}

proof fn lemma_names_printable(n: int)
    ensures
        printable_text(weekday_name(n)),
        weekday_name(n).len() == 3,
        printable_text(month_name(n)),
        month_name(n).len() == 3,
{
    reveal_strlit("Thu");
    reveal_strlit("Fri");
    reveal_strlit("Sat");
    reveal_strlit("Sun");
    reveal_strlit("Mon");
    reveal_strlit("Tue");
    reveal_strlit("Wed");
    reveal_strlit("Jan");
    reveal_strlit("Feb");
    reveal_strlit("Mar");
    reveal_strlit("Apr");
    reveal_strlit("May");
    reveal_strlit("Jun");
    reveal_strlit("Jul");
    reveal_strlit("Aug");
    reveal_strlit("Sep");
    reveal_strlit("Oct");
    reveal_strlit("Nov");
    reveal_strlit("Dec");
}

proof fn lemma_time_printable(n: int, date: CivilDate, seconds_in_day: nat)
    requires
        date.exists_in_calendar(),
        seconds_in_day < 86400,
    ensures
        printable_text(shown_time(n, date, seconds_in_day)),
        shown_time(n, date, seconds_in_day).len() <= 100,
{
    reveal_strlit(" ");
    reveal_strlit("0");
    reveal_strlit(":");
    lemma_names_printable(n);
    lemma_names_printable(date.month as int);
    lemma_two_places_printable(date.day as nat, " "@);
    lemma_two_places_printable(seconds_in_day / 3600, "0"@);
    lemma_two_places_printable((seconds_in_day % 3600) / 60, "0"@);
    lemma_two_places_printable(seconds_in_day % 60, "0"@);
    reveal_with_fuel(power_of_ten, 21);
    lemma_decimal_printable(date.year as nat, 20);
}

/// A line that marks a time can start a record.
proof fn lemma_generated_is_valid(line: Seq<char>, seconds: nat, date: CivilDate)
    requires
        marks_date(line, seconds, date),
    ensures
        postmark_fault(encode_utf8(line)) is None,
{
    let start = "From MAILER-DAEMON "@;
    let middle = shown_time(((seconds / 86400) % 7) as int, date, seconds % 86400);
    reveal_strlit("From MAILER-DAEMON ");
    reveal_strlit("\n");
    lemma_time_printable(((seconds / 86400) % 7) as int, date, seconds % 86400);
    assert(printable_text(start + middle));
    assert(line == start + middle + "\n"@);
    let length = line.len() as int;
    assert forall|i: int| 0 <= i < length - 1 implies ' ' <= #[trigger] line[i] <= '~' by {
        assert(line[i] == (start + middle)[i]);
    }
    assert(line[length - 1] == '\n');
    assert(is_ascii_chars(line));
    is_ascii_chars_encode_utf8(line);
    let bytes = encode_utf8(line);
    assert(bytes.len() == length);
    assert forall|i: int| 0 <= i < length implies #[trigger] bytes[i] == line[i] as u8 by {}
    assert forall|i: int| 0 <= i < length - 1 implies printable(#[trigger] bytes[i]) && bytes[i]
        != 10 by {
        assert(' ' <= line[i] <= '~');
    }
    assert(line[0] == 'F' && line[1] == 'r' && line[2] == 'o' && line[3] == 'm' && line[4] == ' ');
    assert(bytes.subrange(0, 5) =~= from_word());
    assert(bytes.last() == 10);
}

/// Where the `>` that a line starts with end, from `i` on.
pub open spec fn marks_end(line: Seq<u8>, i: int) -> int
    decreases line.len() - i,
{
    if 0 <= i < line.len() && line[i] == 62 {
        marks_end(line, i + 1)
    } else {
        i
    }
}

/// Whether a line would pass for the start of a record, with `>` before it or
/// not.
pub open spec fn looks_like_postmark(line: Seq<u8>) -> bool {
    from_at(line, marks_end(line, 0))
}

/// A line as it stands in a record.
pub open spec fn quoted_line(line: Seq<u8>) -> Seq<u8> {
    if looks_like_postmark(line) {
        seq![62u8] + line
    } else {
        line
    }
}

/// A message as it stands in a record, from `offset` on.
pub open spec fn quoted_from(message: Seq<u8>, offset: int) -> Seq<u8>
    decreases message.len() - offset,
{
    let end = message::line_end(message, offset);
    if 0 <= offset < end <= message.len() {
        quoted_line(message.subrange(offset, end)) + quoted_from(message, end)
    } else {
        Seq::empty()
    }
}

/// What comes after a message, so that the next record starts a line of its
/// own.
pub open spec fn record_tail(message: Seq<u8>, ending: OutputEnding) -> Seq<u8> {
    let closed = message.len() > 0 && message.last() == 10;
    (if !closed && (ending is Normalize || message.len() > 0) {
        seq![10u8]
    } else {
        Seq::empty()
    }) + (if ending is Normalize {
        seq![10u8]
    } else {
        Seq::empty()
    })
}

/// A record.
pub open spec fn record(postmark: Seq<u8>, message: Seq<u8>, ending: OutputEnding) -> Seq<u8> {
    postmark + quoted_from(message, 0) + record_tail(message, ending)
}

fn is_like_postmark(line: &[u8]) -> (r: bool)
    ensures
        r == looks_like_postmark(line@),
{
    let mut i: usize = 0;
    while i < line.len() && line[i] == 62
        invariant
            i <= line@.len(),
            marks_end(line@, 0) == marks_end(line@, i as int),
        decreases line.len() - i,
    {
        i = i + 1;
    }
    starts_with_from(line, i)
}

/// Writes a record whose message ends with an empty line.
pub fn write_record<W: ByteSink>(writer: &mut W, postmark: &Postmark, message: &[u8]) -> (r: Result<
    (),
    IoError,
>)
    ensures
        match r {
            Ok(()) => final(writer).written() == old(writer).written() + record(
                postmark@,
                message@,
                OutputEnding::Normalize,
            ),
            Err(error) => sink::partly_written(
                old(writer).written(),
                record(postmark@, message@, OutputEnding::Normalize),
                final(writer).written(),
            ) && sink::failed_within(
                *old(writer),
                record(postmark@, message@, OutputEnding::Normalize),
                *final(writer),
                error@,
            ),
        },
        final(writer).identity() == old(writer).identity(),
        old(writer).always_takes() ==> r is Ok && final(writer).always_takes(),
{
    write_record_with_ending(writer, postmark, message, OutputEnding::Normalize)
}

/// Writes a record.
pub fn write_record_with_ending<W: ByteSink>(
    writer: &mut W,
    postmark: &Postmark,
    message: &[u8],
    output_ending: OutputEnding,
) -> (r: Result<(), IoError>)
    ensures
        match r {
            Ok(()) => final(writer).written() == old(writer).written() + record(
                postmark@,
                message@,
                output_ending,
            ),
            Err(error) => sink::partly_written(
                old(writer).written(),
                record(postmark@, message@, output_ending),
                final(writer).written(),
            ) && sink::failed_within(
                *old(writer),
                record(postmark@, message@, output_ending),
                *final(writer),
                error@,
            ),
        },
        final(writer).identity() == old(writer).identity(),
        old(writer).always_takes() ==> r is Ok && final(writer).always_takes(),
{
    let ghost before = writer.written();
    let ghost whole = record(postmark@, message@, output_ending);
    let ghost all = quoted_from(message@, 0);
    let ghost tail = record_tail(message@, output_ending);
    match write_all(writer, postmark.as_bytes()) {
        Ok(()) => {},
        Err(error) => {
            proof {
                let none: Seq<u8> = Seq::empty();
                assert(before + none =~= before);
                assert(none + postmark@ =~= whole.take(postmark@.len() as int));
                lemma_partly_written(before, none, postmark@, whole, writer.written());
                lemma_piece_failed(*old(writer), *old(writer), whole, none, postmark@, *writer, error@);
            }
            return Err(error);
        },
    }
    let ghost mut done: Seq<u8> = Seq::empty();
    assert(before + postmark@ =~= before + (postmark@ + done));
    assert(done + all =~= all);
    let length = message.len();
    let mut offset: usize = 0;
    let mark = [62u8];
    while offset < length
        invariant
            length == message@.len(),
            offset <= message@.len(),
            mark@ == seq![62u8],
            old(writer).always_takes() ==> writer.always_takes(),
            writer.identity() == old(writer).identity(),
            before == old(writer).written(),
            whole == record(postmark@, message@, output_ending),
            whole == postmark@ + all + tail,
            writer.written() == before + (postmark@ + done),
            done + quoted_from(message@, offset as int) == all,
        decreases length - offset,
    {
        let end = find_line_end(message, offset);
        let line = slice_subrange(message, offset, end);
        let ghost so_far = done;
        let ghost rest = quoted_from(message@, end as int);
        assert(quoted_from(message@, offset as int) == quoted_line(line@) + rest);
        if is_like_postmark(line) {
            let ghost mid = *writer;
            match write_all(writer, mark.as_slice()) {
                Ok(()) => {},
                Err(error) => {
                    proof {
                        let head = postmark@ + done;
                        assert(whole =~= head + mark@ + (line@ + rest + tail));
                        assert(head + mark@ =~= whole.take((head.len() + 1) as int));
                        lemma_partly_written(before, head, mark@, whole, writer.written());
                        lemma_piece_failed(*old(writer), mid, whole, head, mark@, *writer, error@);
                    }
                    return Err(error);
                },
            }
            proof {
                done = done + mark@;
                assert(writer.written() =~= before + (postmark@ + done));
            }
        }
        let ghost mid = *writer;
        match write_all(writer, line) {
            Ok(()) => {},
            Err(error) => {
                proof {
                    let head = postmark@ + done;
                    assert(whole =~= head + line@ + (rest + tail));
                    assert(head + line@ =~= whole.take((head.len() + line@.len()) as int));
                    lemma_partly_written(before, head, line@, whole, writer.written());
                    lemma_piece_failed(*old(writer), mid, whole, head, line@, *writer, error@);
                }
                return Err(error);
            },
        }
        proof {
            done = done + line@;
            assert(writer.written() =~= before + (postmark@ + done));
            assert(done =~= so_far + quoted_line(line@));
            assert(done + quoted_from(message@, end as int) =~= so_far + quoted_from(
                message@,
                offset as int,
            ));
        }
        offset = end;
    }
    let feed = [10u8];
    let closed = length > 0 && message[length - 1] == 10;
    let ghost mut ended: Seq<u8> = Seq::empty();
    proof {
        assert(quoted_from(message@, offset as int) =~= Seq::empty());
        assert(done =~= all);
        assert(before + (postmark@ + done) =~= before + (postmark@ + all + ended));
    }
    if !closed && (output_ending == OutputEnding::Normalize || length > 0) {
        let ghost mid = *writer;
        match write_all(writer, feed.as_slice()) {
            Ok(()) => {},
            Err(error) => {
                proof {
                    let head = postmark@ + all + ended;
                    assert(feed@ =~= seq![10u8]);
                    assert(head + feed@ =~= whole.take((head.len() + 1) as int));
                    lemma_partly_written(before, head, feed@, whole, writer.written());
                    lemma_piece_failed(*old(writer), mid, whole, head, feed@, *writer, error@);
                }
                return Err(error);
            },
        }
        proof {
            assert(feed@ =~= seq![10u8]);
            assert(before + (postmark@ + all + ended) + feed@ =~= before + (postmark@ + all
                + feed@));
            ended = feed@;
        }
    }
    if output_ending == OutputEnding::Normalize {
        let ghost mid = *writer;
        match write_all(writer, feed.as_slice()) {
            Ok(()) => {},
            Err(error) => {
                proof {
                    let head = postmark@ + all + ended;
                    assert(feed@ =~= seq![10u8]);
                    assert(head + feed@ =~= whole.take((head.len() + 1) as int));
                    lemma_partly_written(before, head, feed@, whole, writer.written());
                    lemma_piece_failed(*old(writer), mid, whole, head, feed@, *writer, error@);
                }
                return Err(error);
            },
        }
        proof {
            assert(feed@ =~= seq![10u8]);
            assert(before + (postmark@ + all + ended) + feed@ =~= before + (postmark@ + all + (ended
                + feed@)));
            ended = ended + feed@;
        }
    }
    assert(ended =~= tail);
    Ok(())
}

/// A line of a record as a reader of mboxrd gives it back: one `>` is taken off
/// where `From` and a blank come after one or more of them.
pub open spec fn unquoted_line(line: Seq<u8>) -> Seq<u8> {
    if line.len() > 0 && line[0] == 62 && looks_like_postmark(line) {
        line.subrange(1, line.len() as int)
    } else {
        line
    }
}

/// What a reader of mboxrd makes of the quoted message from `offset` on.
pub open spec fn unquoted_from(quoted: Seq<u8>, offset: int) -> Seq<u8>
    decreases quoted.len() - offset,
{
    let end = message::line_end(quoted, offset);
    if 0 <= offset < end <= quoted.len() {
        unquoted_line(quoted.subrange(offset, end)) + unquoted_from(quoted, end)
    } else {
        Seq::empty()
    }
}

proof fn lemma_line_shape(bytes: Seq<u8>, i: int)
    requires
        0 <= i < bytes.len(),
    ensures
        i < message::line_end(bytes, i) <= bytes.len(),
        forall|j: int| i <= j < message::line_end(bytes, i) - 1 ==> #[trigger] bytes[j] != 10,
        message::line_end(bytes, i) == bytes.len() || bytes[message::line_end(bytes, i) - 1] == 10,
    decreases bytes.len() - i,
{
    reveal_with_fuel(message::line_end, 2);
    if bytes[i] != 10 && i + 1 < bytes.len() {
        lemma_line_shape(bytes, i + 1);
    }
}

/// A line is found again in front of other bytes.
proof fn lemma_first_line(line: Seq<u8>, rest: Seq<u8>, i: int)
    requires
        0 <= i < line.len(),
        forall|j: int| 0 <= j < line.len() - 1 ==> #[trigger] line[j] != 10,
        line.last() == 10 || rest.len() == 0,
    ensures
        message::line_end(line + rest, i) == line.len(),
    decreases line.len() - i,
{
    let both = line + rest;
    assert(both[i] == line[i]);
    if i + 1 < line.len() {
        lemma_first_line(line, rest, i + 1);
    } else {
        reveal_with_fuel(message::line_end, 2);
    }
}

proof fn lemma_shifted_line_end(front: Seq<u8>, bytes: Seq<u8>, i: int)
    requires
        0 <= i <= bytes.len(),
    ensures
        message::line_end(front + bytes, front.len() + i) == front.len() + message::line_end(
            bytes,
            i,
        ),
    decreases bytes.len() - i,
{
    if i < bytes.len() {
        assert((front + bytes)[front.len() + i] == bytes[i]);
        lemma_shifted_line_end(front, bytes, i + 1);
    }
}

proof fn lemma_shifted_unquoted(front: Seq<u8>, bytes: Seq<u8>, i: int)
    requires
        0 <= i <= bytes.len(),
    ensures
        unquoted_from(front + bytes, front.len() + i) == unquoted_from(bytes, i),
    decreases bytes.len() - i,
{
    lemma_shifted_line_end(front, bytes, i);
    if i < bytes.len() {
        lemma_line_shape(bytes, i);
        let end = message::line_end(bytes, i);
        assert((front + bytes).subrange(front.len() + i, front.len() + end) =~= bytes.subrange(
            i,
            end,
        ));
        lemma_shifted_unquoted(front, bytes, end);
    }
}

proof fn lemma_more_marks(line: Seq<u8>, i: int)
    requires
        0 <= i <= line.len(),
    ensures
        marks_end(seq![62u8] + line, i + 1) == marks_end(line, i) + 1,
    decreases line.len() - i,
{
    let marked = seq![62u8] + line;
    if i < line.len() {
        assert(marked[i + 1] == line[i]);
        if line[i] == 62 {
            lemma_more_marks(line, i + 1);
        }
    }
}

proof fn lemma_marks_end_bounds(line: Seq<u8>, i: int)
    requires
        0 <= i <= line.len(),
    ensures
        i <= marks_end(line, i) <= line.len(),
    decreases line.len() - i,
{
    if i < line.len() && line[i] == 62 {
        lemma_marks_end_bounds(line, i + 1);
    }
}

/// Quoting a line is undone by taking one `>` off.
proof fn lemma_unquoted_line(line: Seq<u8>)
    ensures
        unquoted_line(quoted_line(line)) == line,
        looks_like_postmark(quoted_line(line)) ==> quoted_line(line)[0] == 62,
{
    if looks_like_postmark(line) {
        let marked = seq![62u8] + line;
        lemma_more_marks(line, 0);
        lemma_marks_end_bounds(line, 0);
        let p = marks_end(line, 0);
        assert(marks_end(marked, 0) == p + 1);
        assert(marked.subrange(p + 1, p + 6) =~= line.subrange(p, p + 5));
        assert(marked.subrange(1, marked.len() as int) =~= line);
    }
}

proof fn lemma_unquoted(message: Seq<u8>, offset: int)
    requires
        0 <= offset <= message.len(),
    ensures
        unquoted_from(quoted_from(message, offset), 0) == message.subrange(
            offset,
            message.len() as int,
        ),
    decreases message.len() - offset,
{
    let quoted = quoted_from(message, offset);
    if offset < message.len() {
        lemma_line_shape(message, offset);
        let end = message::line_end(message, offset);
        let line = message.subrange(offset, end);
        let first = quoted_line(line);
        let rest = quoted_from(message, end);
        assert(quoted == first + rest);
        lemma_unquoted(message, end);
        lemma_unquoted_line(line);
        assert(line.last() == message[end - 1]);
        assert forall|j: int| 0 <= j < first.len() - 1 implies #[trigger] first[j] != 10 by {
            if looks_like_postmark(line) {
                if j > 0 {
                    assert(first[j] == line[j - 1]);
                    assert(line[j - 1] == message[offset + j - 1]);
                }
            } else {
                assert(line[j] == message[offset + j]);
            }
        }
        assert(first.last() == line.last());
        assert(end == message.len() ==> rest.len() == 0) by {
            if end == message.len() {
                assert(quoted_from(message, end) =~= Seq::empty());
            }
        }
        lemma_first_line(first, rest, 0);
        assert(quoted.subrange(0, first.len() as int) =~= first);
        lemma_shifted_unquoted(first, rest, 0);
        assert(message.subrange(offset, message.len() as int) =~= line + message.subrange(
            end,
            message.len() as int,
        ));
    } else {
        assert(quoted =~= Seq::empty());
        assert(message.subrange(offset, message.len() as int) =~= Seq::empty());
    }
}

/// Quoting is reversible: a reader of mboxrd gets back exactly the message that
/// was written, whatever its lines look like.
pub proof fn quoting_is_reversible(message: Seq<u8>)
    ensures
        unquoted_from(quoted_from(message, 0), 0) == message,
{
    lemma_unquoted(message, 0);
    assert(message.subrange(0, message.len() as int) =~= message);
}

proof fn lemma_quoted_line_starts_no_record(line: Seq<u8>)
    ensures
        !from_at(quoted_line(line), 0),
{
    if looks_like_postmark(line) {
        let marked = seq![62u8] + line;
        if from_at(marked, 0) {
            assert(marked.subrange(0, 5)[0] == 62);
        }
    } else if from_at(line, 0) {
        assert(line.subrange(0, 5)[0] == 70);
        assert(marks_end(line, 0) == 0);
    }
}

/// Whether a line starts at `i`.
pub open spec fn line_starts(bytes: Seq<u8>, i: int) -> bool {
    0 <= i < bytes.len() && (i == 0 || bytes[i - 1] == 10)
}

proof fn lemma_no_quoted_start(message: Seq<u8>, offset: int, i: int)
    requires
        0 <= offset <= message.len(),
        line_starts(quoted_from(message, offset), i),
    ensures
        !from_at(quoted_from(message, offset), i),
    decreases message.len() - offset,
{
    let quoted = quoted_from(message, offset);
    if offset < message.len() {
        lemma_line_shape(message, offset);
        let end = message::line_end(message, offset);
        let line = message.subrange(offset, end);
        let first = quoted_line(line);
        let rest = quoted_from(message, end);
        assert(quoted == first + rest);
        lemma_quoted_line_starts_no_record(line);
        assert forall|j: int| 0 <= j < first.len() - 1 implies #[trigger] first[j] != 10 by {
            if looks_like_postmark(line) {
                if j > 0 {
                    assert(first[j] == line[j - 1]);
                    assert(line[j - 1] == message[offset + j - 1]);
                }
            } else {
                assert(line[j] == message[offset + j]);
            }
        }
        if i == 0 {
            if from_at(quoted, 0) {
                lemma_from_within_line(first, rest);
            }
        } else if i < first.len() {
            assert(quoted[i - 1] == first[i - 1]);
        } else {
            let shifted = i - first.len();
            if shifted > 0 {
                assert(quoted[i - 1] == rest[shifted - 1]);
            }
            lemma_no_quoted_start(message, end, shifted);
            if from_at(quoted, i) {
                assert(quoted.subrange(i, i + 5) =~= rest.subrange(shifted, shifted + 5));
            }
        }
    }
}

/// `From` and a blank hold no line feed, so that they stand in the first line.
proof fn lemma_from_within_line(line: Seq<u8>, rest: Seq<u8>)
    requires
        line.len() > 0,
        line.last() == 10 || rest.len() == 0,
        from_at(line + rest, 0),
    ensures
        from_at(line, 0),
{
    let both = line + rest;
    let word = both.subrange(0, 5);
    if line.len() < 5 {
        assert(rest.len() > 0);
        assert(word[line.len() - 1] == line.last());
        assert(from_word()[line.len() - 1] != 10);
    } else {
        assert(line.subrange(0, 5) =~= word);
    }
}

/// No line of a quoted message passes for the start of a record: what comes in
/// from outside cannot begin a record of its own.
pub proof fn no_quoted_line_starts_a_record(message: Seq<u8>, i: int)
    requires
        line_starts(quoted_from(message, 0), i),
    ensures
        !from_at(quoted_from(message, 0), i),
{
    lemma_no_quoted_start(message, 0, i);
}

/// A record that is written the usual way ends with an empty line, and any
/// record ends with a complete one.
pub proof fn a_record_ends_its_last_line(postmark: Seq<u8>, message: Seq<u8>, ending: OutputEnding)
    requires
        postmark_fault(postmark) is None,
    ensures
        record(postmark, message, ending).last() == 10,
        ending is Normalize && message.len() > 0 ==> {
            let whole = record(postmark, message, ending);
            whole.len() >= 2 && whole[whole.len() - 2] == 10
        },
{
    let whole = record(postmark, message, ending);
    let quoted = quoted_from(message, 0);
    lemma_quoted_last(message, 0);
    if message.len() > 0 {
        assert(quoted.len() > 0 && quoted.last() == message.last());
    } else {
        assert(quoted =~= Seq::empty());
    }
}

proof fn lemma_quoted_last(message: Seq<u8>, offset: int)
    requires
        0 <= offset <= message.len(),
    ensures
        offset < message.len() ==> quoted_from(message, offset).len() > 0 && quoted_from(
            message,
            offset,
        ).last() == message.last(),
    decreases message.len() - offset,
{
    if offset < message.len() {
        lemma_line_shape(message, offset);
        let end = message::line_end(message, offset);
        let line = message.subrange(offset, end);
        lemma_quoted_last(message, end);
        assert(quoted_line(line).last() == line.last());
        if end == message.len() {
            assert(quoted_from(message, end) =~= Seq::empty());
        }
    }
}

/// Every moment since 1970 has a postmark that can start a record.
pub proof fn every_moment_has_a_valid_postmark(line: Seq<char>, seconds: nat)
    requires
        marks_time(line, seconds),
    ensures
        postmark_fault(encode_utf8(line)) is None,
{
    let date = choose|date: CivilDate| #[trigger] marks_date(line, seconds, date);
    lemma_generated_is_valid(line, seconds, date);
}

/// The names of the weekdays, of which 1970 began with the first, and those of
/// the months, in their order.
pub proof fn days_and_months_have_their_names(day: int, month: int)
    requires
        0 <= day < 7,
        1 <= month <= 12,
    ensures
        weekday_name(day) == "ThuFriSatSunMonTueWed"@.subrange(3 * day, 3 * day + 3),
        month_name(month) == "JanFebMarAprMayJunJulAugSepOctNovDec"@.subrange(
            3 * month - 3,
            3 * month,
        ),
{
    reveal_strlit("ThuFriSatSunMonTueWed");
    reveal_strlit("JanFebMarAprMayJunJulAugSepOctNovDec");
    reveal_strlit("Thu");
    reveal_strlit("Fri");
    reveal_strlit("Sat");
    reveal_strlit("Sun");
    reveal_strlit("Mon");
    reveal_strlit("Tue");
    reveal_strlit("Wed");
    reveal_strlit("Jan");
    reveal_strlit("Feb");
    reveal_strlit("Mar");
    reveal_strlit("Apr");
    reveal_strlit("May");
    reveal_strlit("Jun");
    reveal_strlit("Jul");
    reveal_strlit("Aug");
    reveal_strlit("Sep");
    reveal_strlit("Oct");
    reveal_strlit("Nov");
    reveal_strlit("Dec");
    assert(weekday_name(day) =~= "ThuFriSatSunMonTueWed"@.subrange(3 * day, 3 * day + 3));
    assert(month_name(month) =~= "JanFebMarAprMayJunJulAugSepOctNovDec"@.subrange(
        3 * month - 3,
        3 * month,
    ));
}

proof fn lemma_two_places_digits(n: nat, filler: Seq<char>)
    requires
        n < 100,
        filler.len() == 1,
    ensures
        two_places(n, filler).len() == 2,
        two_places(n, filler)[1] as int == 48 + n % 10,
        n >= 10 ==> two_places(n, filler)[0] as int == 48 + n / 10,
        n < 10 ==> two_places(n, filler)[0] == filler[0],
{
    text::decimals_spell_their_number(n);
    text::decimals_spell_their_number(n / 10);
    if n >= 10 {
        assert(text::decimal(n)[0] == text::decimal(n).drop_last()[0]);
        assert(text::decimal(n / 10).last() == text::decimal(n / 10)[0]);
        assert(text::decimal(n).len() == 2);
    }
}

/// What a postmark shows, character by character: the weekday, the month, the
/// day, the hour, the minute, the second and the year of its moment.
pub proof fn a_postmark_shows_its_moment(line: Seq<char>, seconds: nat, date: CivilDate)
    requires
        marks_date(line, seconds, date),
    ensures
        date.day_number() == seconds / 86400,
        line.len() > 40,
        ({
            let days = "ThuFriSatSunMonTueWed"@;
            let months = "JanFebMarAprMayJunJulAugSepOctNovDec"@;
            let weekday = ((seconds / 86400) % 7) as int;
            let hour = (seconds / 3600) % 24;
            let minute = (seconds / 60) % 60;
            let second = seconds % 60;
            &&& line.subrange(0, 19) == "From MAILER-DAEMON "@
            &&& line.subrange(19, 22) == days.subrange(3 * weekday, 3 * weekday + 3)
            &&& line[22] == ' '
            &&& line.subrange(23, 26) == months.subrange(3 * date.month - 3, 3 * date.month as int)
            &&& line[26] == ' '
            &&& date.day < 10 ==> line[27] == ' '
            &&& date.day >= 10 ==> line[27] as int == 48 + date.day / 10
            &&& line[28] as int == 48 + date.day % 10
            &&& line[29] == ' '
            &&& line[30] as int == 48 + hour / 10
            &&& line[31] as int == 48 + hour % 10
            &&& line[32] == ':'
            &&& line[33] as int == 48 + minute / 10
            &&& line[34] as int == 48 + minute % 10
            &&& line[35] == ':'
            &&& line[36] as int == 48 + second / 10
            &&& line[37] as int == 48 + second % 10
            &&& line[38] == ' '
            &&& text::digits_value(line.subrange(39, line.len() - 1)) == Some(date.year as nat)
            &&& line.last() == '\n'
        }),
{
    let weekday = ((seconds / 86400) % 7) as int;
    let rest = seconds % 86400;
    let hour = rest / 3600;
    let minute = (rest % 3600) / 60;
    let second = rest % 60;
    assert(hour == (seconds / 3600) % 24 && minute == (seconds / 60) % 60 && second == seconds % 60)
        by {
        assert(seconds == 86400 * (seconds / 86400) + rest);
        assert(seconds / 3600 == 24 * (seconds / 86400) + hour);
        assert(seconds / 60 == 1440 * (seconds / 86400) + rest / 60);
        assert(rest / 60 == 60 * hour + minute);
    }
    let start = "From MAILER-DAEMON "@;
    reveal_strlit("From MAILER-DAEMON ");
    reveal_strlit(" ");
    reveal_strlit(":");
    reveal_strlit("0");
    reveal_strlit("\n");
    days_and_months_have_their_names(weekday, date.month as int);
    lemma_names_printable(weekday);
    lemma_names_printable(date.month as int);
    lemma_two_places_digits(date.day as nat, " "@);
    lemma_two_places_digits(hour, "0"@);
    lemma_two_places_digits(minute, "0"@);
    lemma_two_places_digits(second, "0"@);
    text::decimals_spell_their_number(date.year as nat);
    text::decimals_are_read_back(date.year as nat);
    let a = weekday_name(weekday);
    let b = month_name(date.month as int);
    let c = two_places(date.day as nat, " "@);
    let d = two_places(hour, "0"@);
    let e = two_places(minute, "0"@);
    let f = two_places(second, "0"@);
    let g = text::decimal(date.year as nat);
    assert(line =~= start + (a + " "@ + b + " "@ + c + " "@ + d + ":"@ + e + ":"@ + f + " "@ + g)
        + "\n"@);
    assert(line.len() == 40 + g.len());
    assert(line.subrange(0, 19) =~= start);
    assert(line.subrange(19, 22) =~= a);
    assert(line.subrange(23, 26) =~= b);
    assert(line[27] == c[0] && line[28] == c[1]);
    assert(line[30] == d[0] && line[31] == d[1]);
    assert(line[33] == e[0] && line[34] == e[1]);
    assert(line[36] == f[0] && line[37] == f[1]);
    assert(line.subrange(39, line.len() - 1) =~= g);
}

} // verus!
