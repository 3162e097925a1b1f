//! What the library takes from other crates. Each function hands plain values
//! to one of theirs, and its contract says what is taken on trust.

use vstd::prelude::*;
use crate::text;

verus! {

/// The text that `humansize` gives for a number of bytes in binary units.
pub uninterp spec fn human_size(bytes: u64) -> Seq<char>;

/// `humansize::format_size` with the `BINARY` options. It never fails, and the
/// text depends on the number alone. What the text looks like is not stated.
#[verifier::external_body]
pub(crate) fn binary_size(bytes: u64) -> (r: String)
    ensures
        r@ == human_size(bytes),
{
    humansize::format_size(bytes, humansize::BINARY)
}

/// A character that a shell takes literally without quotes.
pub open spec fn unquoted_char(c: char) -> bool {
    ||| '0' <= c && c <= '9'
    ||| 'A' <= c && c <= 'Z'
    ||| 'a' <= c && c <= 'z'
    ||| c == '+' || c == '-' || c == '.' || c == '/' || c == ':' || c == '@' || c == ']' || c == '_'
}

/// Whether a word needs no quotes.
pub open spec fn unquoted_word(s: Seq<char>) -> bool {
    s.len() > 0 && forall|i: int| 0 <= i < s.len() ==> unquoted_char(#[trigger] s[i])
}

/// The word that `shlex` writes for `s` in a shell command.
pub uninterp spec fn quoted_word(s: Seq<char>) -> Seq<char>;

/// `shlex::try_quote`: a shell word that stands for `s`. It fails exactly on a
/// text with a NUL character. The empty text becomes two single quotes, and a
/// text made of letters, digits and the signs `+-./:@]_` stays as it is. How
/// other texts are quoted is not stated.
#[verifier::external_body]
pub(crate) fn quote_word(s: &str) -> (r: Option<String>)
    ensures
        r is None <==> s@.contains('\0'),
        r matches Some(q) ==> q@ == quoted_word(s@),
        r matches Some(q) ==> s@.len() == 0 ==> q@ == seq!['\'', '\''],
        r matches Some(q) ==> unquoted_word(s@) ==> q@ == s@,
{
    match shlex::try_quote(s) {
        Ok(q) => Some(q.into_owned()),
        Err(_) => None,
    }
}

/// The words that `shlex` reads from a command line, or nothing where a quote
/// is left open or a backslash ends the line.
pub uninterp spec fn shell_words(s: Seq<char>) -> Option<Seq<Seq<char>>>;

/// `shlex::split`: the words of a command line by the rules of the shell. It
/// depends on the text alone. How words are delimited is not stated.
#[verifier::external_body]
pub(crate) fn split_words(s: &str) -> (r: Option<Vec<String>>)
    ensures
        r is Some <==> shell_words(s@) is Some,
        r matches Some(v) ==> text::views(v@) == shell_words(s@)->0,
{
    shlex::split(s)
}

/// `nix::unistd::gethostname`: the name of this machine, if it has one that is
/// valid text. Nothing is claimed of it: it is the machine's to choose.
#[verifier::external_body]
pub(crate) fn host_name() -> (r: Option<String>)
{
    match nix::unistd::gethostname() {
        Ok(name) => name.into_string().ok(),
        Err(_) => None,
    }
}

/// `directories::ProjectDirs::from` and its `config_dir`: the directory for
/// this program's settings, if the user has a home and the path is valid text.
/// Nothing is claimed of it: it depends on the user's environment.
#[verifier::external_body]
pub(crate) fn settings_dir() -> (r: Option<String>)
{
    match directories::ProjectDirs::from("", "", "gritty") {
        Some(dirs) => dirs.config_dir().to_str().map(String::from),
        None => None,
    }
}

/// The moment that a number of seconds since 1970 stands for. Numbers from the
/// upper half of the range stand for the seconds before 1970.
pub open spec fn moment(epoch_secs: u64) -> int {
    if epoch_secs < 0x8000_0000_0000_0000 {
        epoch_secs as int
    } else {
        epoch_secs - 0x1_0000_0000_0000_0000
    }
}

/// Whether a moment can be shown as a date.
pub open spec fn has_date(epoch_secs: u64) -> bool {
    -377705023201 <= moment(epoch_secs) <= 253402207200
}

/// The pattern of a date and a time of day.
pub open spec fn date_pattern() -> Seq<char> {
    "%Y-%m-%d %H:%M:%S"@
}

/// The number that two digits of a text stand for.
pub open spec fn two_digits(s: Seq<char>, i: int) -> int {
    (s[i] as int - '0' as int) * 10 + (s[i + 1] as int - '0' as int)
}

/// What stands before the month in a date and time of day: the year.
pub open spec fn year_part(s: Seq<char>) -> Seq<char> {
    s.take(s.len() - 15)
}

/// The rest of a date and time of day: `-MM-DD HH:MM:SS`.
pub open spec fn clock_part(s: Seq<char>) -> Seq<char> {
    s.skip(s.len() - 15)
}

/// A date and a time of day: `YYYY-MM-DD HH:MM:SS`. A year before the year zero
/// has a minus sign and at least three digits.
pub open spec fn is_date_time(s: Seq<char>) -> bool {
    let y = year_part(s);
    let c = clock_part(s);
    &&& s.len() >= 19
    &&& ({
        ||| y.len() == 4 && text::all_digits(y)
        ||| 4 <= y.len() <= 5 && y[0] == '-' && text::all_digits(y.skip(1))
    })
    &&& c[0] == '-' && c[3] == '-' && c[6] == ' ' && c[9] == ':' && c[12] == ':'
    &&& forall|i: int|
        #![trigger c[i]]
        0 <= i < 15 && i % 3 != 0 ==> text::is_digit_char(c[i])
    &&& 1 <= two_digits(c, 1) <= 12
    &&& 1 <= two_digits(c, 4) <= 31
    &&& two_digits(c, 7) <= 23
    &&& two_digits(c, 10) <= 59
    &&& two_digits(c, 13) <= 59
}

/// The year of a date and time of day.
pub open spec fn year_of(s: Seq<char>) -> int {
    let y = year_part(s);
    if y[0] == '-' {
        -(text::digits_value(y.skip(1)) as int)
    } else {
        text::digits_value(y) as int
    }
}

/// The days from 1970-01-01 to a date, by the Gregorian calendar. Years are
/// counted from March, so that the day that some of them have more comes last.
pub open spec fn days_to(year: int, month: int, day: int) -> int {
    let a = if month <= 2 {
        year - 1
    } else {
        year
    };
    let p = if month <= 2 {
        month + 9
    } else {
        month - 3
    };
    365 * a + a / 4 - a / 100 + a / 400 + (153 * p + 2) / 5 + day - 1 - 719468
}

/// The seconds from 1970-01-01 00:00:00 to a date and time of day.
pub open spec fn civil_secs(s: Seq<char>) -> int {
    let c = clock_part(s);
    days_to(year_of(s), two_digits(c, 1), two_digits(c, 4)) * 86400 + two_digits(c, 7) * 3600
        + two_digits(c, 10) * 60 + two_digits(c, 13)
}

/// Whether a text is the date and time of day of a moment in some time zone: no
/// zone is off by 26 hours.
pub open spec fn is_local_time(s: Seq<char>, epoch_secs: u64) -> bool {
    is_date_time(s) && -93599 <= civil_secs(s) - moment(epoch_secs) <= 93599
}

/// `jiff::Timestamp::from_second`, `to_zoned` and `strftime`: the date and time
/// in the time zone of this machine. There is one exactly for the seconds that
/// `jiff` has a timestamp for. It has the shape of the pattern, and is the
/// moment plus the offset of the zone, which `jiff` keeps below 26 hours either
/// way. Which offset that is depends on the machine and is not stated.
#[verifier::external_body]
pub(crate) fn local_time(epoch_secs: u64, pattern: &str) -> (r: Option<String>)
    requires
        pattern@ == date_pattern(),
    ensures
        r is Some <==> has_date(epoch_secs),
        r matches Some(s) ==> is_local_time(s@, epoch_secs),
{
    match jiff::Timestamp::from_second(epoch_secs as i64) {
        Ok(t) => {
            let here = t.to_zoned(jiff::tz::TimeZone::system());
            Some(here.strftime(pattern).to_string())
        },
        Err(_) => None,
    }
}

/// What the standard library says of bytes that are not text.
pub uninterp spec fn utf8_error(bytes: Seq<u8>) -> Seq<char>;

/// `String::from_utf8` of the standard library, and `to_string` of its error:
/// the text that the bytes encode, exactly where they are valid UTF-8. What the
/// error says depends on the bytes alone and is not stated.
#[verifier::external_body]
pub(crate) fn utf8_text(bytes: Vec<u8>) -> (r: Result<String, String>)
    ensures
        r is Ok <==> vstd::utf8::valid_utf8(bytes@),
        r matches Ok(s) ==> s@ == vstd::utf8::decode_utf8(bytes@),
        r matches Err(e) ==> e@ == utf8_error(bytes@),
{
    match String::from_utf8(bytes) {
        Ok(s) => Ok(s),
        Err(e) => Err(e.to_string()),
    }
}

/// A text as `{:?}` shows it: between double quotes, with escapes.
pub uninterp spec fn debug_text(s: Seq<char>) -> Seq<char>;

/// `format!` of the standard library with `{:?}` on a string. It depends on
/// the text alone. Which characters are escaped is not stated.
#[verifier::external_body]
pub(crate) fn debug_string(s: &str) -> (r: String)
    ensures
        r@ == debug_text(s@),
{
    format!("{:?}", s)
}

} // verus!
