//! Generating the canonical file path for a timestamp: the path has the
//! shape `/{year}/{month}/{day}/{year}-{month}-{day}-{hour}-{minute}-{second}.{extension}`
//! with unpadded decimal fields, and the timestamp may arrive either as
//! epoch milliseconds or as an ISO-8601 string with an explicit offset.

use crate::civil::{
    civil_of_millis, millis_to_civil, parse_iso_utc, CivilDateTime, MAX_EPOCH_MILLIS,
    MIN_EPOCH_MILLIS,
};
use crate::digits::{dec_spec, i32_to_string, u32_to_string};
use vstd::prelude::*;

verus! {

/// A `Result` of strings seen through its views, the form contracts about
/// fallible string-producing functions are stated in.
pub open spec fn res_view(r: Result<String, String>) -> Result<Seq<char>, Seq<char>> {
    match r {
        Ok(s) => Ok(s@),
        Err(e) => Err(e@),
    }
}

/// The extension with one leading dot removed, if it has one.
pub open spec fn strip_dot(e: Seq<char>) -> Seq<char> {
    if e.len() >= 1 && e[0] == '.' {
        e.skip(1)
    } else {
        e
    }
}

/// The file-name part of a canonical path: the six calendar fields joined
/// by dashes, then a dot and the extension.
pub open spec fn filename_seq(
    y: int,
    mo: int,
    d: int,
    h: int,
    mi: int,
    s: int,
    ext: Seq<char>,
) -> Seq<char> {
    dec_spec(y) + seq!['-'] + dec_spec(mo) + seq!['-'] + dec_spec(d) + seq!['-'] + dec_spec(h)
        + seq!['-'] + dec_spec(mi) + seq!['-'] + dec_spec(s) + seq!['.'] + ext
}

/// A whole canonical path: year, month and day prefix segments, then the
/// file name.
pub open spec fn path_seq(
    y: int,
    mo: int,
    d: int,
    h: int,
    mi: int,
    s: int,
    ext: Seq<char>,
) -> Seq<char> {
    seq!['/'] + dec_spec(y) + seq!['/'] + dec_spec(mo) + seq!['/'] + dec_spec(d) + seq!['/']
        + filename_seq(y, mo, d, h, mi, s, ext)
}

/// What generating a path from epoch milliseconds returns: the canonical
/// path for the instant's UTC calendar fields, an error for an empty
/// extension, and an error for a timestamp past the supported range.
pub open spec fn epoch_path_spec(ms: int, ext: Seq<char>) -> Result<Seq<char>, Seq<char>> {
    if strip_dot(ext).len() == 0 {
        Err("Invalid extension"@)
    } else if ms > MAX_EPOCH_MILLIS {
        Err("Cannot convert the provided epoch time"@)
    } else {
        let (y, mo, d, h, mi, s) = civil_of_millis(ms);
        Ok(path_seq(y, mo, d, h, mi, s, strip_dot(ext)))
    }
}

/// What generating a path from an ISO-8601 string returns: as from the
/// milliseconds the string denotes, or an error when it does not parse or
/// lies outside the supported range.
pub open spec fn iso_path_spec(dt: Seq<char>, ext: Seq<char>) -> Result<Seq<char>, Seq<char>> {
    if strip_dot(ext).len() == 0 {
        Err("Invalid extension"@)
    } else {
        match crate::civil::iso_millis_of(dt) {
            None => Err("cannot convert the provided epoch time to datetime: "@ + dt),
            Some(ms) => {
                if ms < MIN_EPOCH_MILLIS || ms > MAX_EPOCH_MILLIS {
                    Err("Cannot convert the provided epoch time"@)
                } else {
                    let (y, mo, d, h, mi, s) = civil_of_millis(ms);
                    Ok(path_seq(y, mo, d, h, mi, s, strip_dot(ext)))
                }
            },
        }
    }
}

/// Generates canonical file paths; `generate_file_path` is the entry point
/// and accepts either epoch milliseconds or an ISO-8601 string.
pub struct FilePath {}

/// A timestamp representation a path can be generated from.
pub trait GenerateFile<DateTimeType> {
    /// The path, or the error message, that this representation yields.
    spec fn file_path_spec(&self, date_time: DateTimeType, extension: Seq<char>) -> Result<
        Seq<char>,
        Seq<char>,
    >;

    /// A path is created by the date time.
    fn generate_file_path_from_datetime(&self, date_time: DateTimeType, extension: &str) -> (r:
        Result<String, String>)
        ensures
            res_view(r) == self.file_path_spec(date_time, extension@),
    ;
}

impl FilePath {
    /// A fresh generator.
    pub fn new() -> (r: Self) {
        FilePath {  }
    }

    /// Generate a file path from epoch milliseconds or an ISO-8601 string.
    pub fn generate_file_path<DateTimeType>(
        &self,
        date_time: DateTimeType,
        extension: &str,
    ) -> (r: Result<String, String>) where Self: GenerateFile<DateTimeType>
        ensures
            res_view(r) == self.file_path_spec(date_time, extension@),
    {
        self.generate_file_path_from_datetime(date_time, extension)
    }
}

/// The extension without a single leading dot.
fn strip_extension<'a>(extension: &'a str) -> (r: &'a str)
    ensures
        r@ == strip_dot(extension@),
{
    let len = extension.unicode_len();
    if len >= 1 && extension.get_char(0) == '.' {
        let r = extension.substring_char(1, len);
        proof {
            assert(r@ =~= extension@.skip(1));
        }
        r
    } else {
        extension
    }
}

/// Render the file-name part for the given calendar fields and an already
/// stripped extension.
#[verifier::rlimit(60)]
fn render_file_name(datetime: &CivilDateTime, ext: &str) -> (r: String)
    requires
        datetime.year >= 0,
    ensures
        r@ == filename_seq(
            datetime.year as int,
            datetime.month as int,
            datetime.day as int,
            datetime.hour as int,
            datetime.minute as int,
            datetime.second as int,
            ext@,
        ),
{
    proof {
        reveal_strlit("-");
        reveal_strlit(".");
    }
    let mut f = i32_to_string(datetime.year);
    f.append("-");
    f.append(u32_to_string(datetime.month).as_str());
    f.append("-");
    f.append(u32_to_string(datetime.day).as_str());
    f.append("-");
    f.append(u32_to_string(datetime.hour).as_str());
    f.append("-");
    f.append(u32_to_string(datetime.minute).as_str());
    f.append("-");
    f.append(u32_to_string(datetime.second).as_str());
    f.append(".");
    f.append(ext);
    proof {
        assert(f@ =~= filename_seq(
            datetime.year as int,
            datetime.month as int,
            datetime.day as int,
            datetime.hour as int,
            datetime.minute as int,
            datetime.second as int,
            ext@,
        ));
    }
    f
}

/// Render the canonical path for the given calendar fields and an already
/// stripped extension.
#[verifier::rlimit(60)]
fn convert_file_name(datetime: &CivilDateTime, ext: &str) -> (r: String)
    requires
        datetime.year >= 0,
    ensures
        r@ == path_seq(
            datetime.year as int,
            datetime.month as int,
            datetime.day as int,
            datetime.hour as int,
            datetime.minute as int,
            datetime.second as int,
            ext@,
        ),
{
    proof {
        reveal_strlit("/");
    }
    let fname = render_file_name(datetime, ext);
    let mut p = String::new();
    p.append("/");
    p.append(i32_to_string(datetime.year).as_str());
    p.append("/");
    p.append(u32_to_string(datetime.month).as_str());
    p.append("/");
    p.append(u32_to_string(datetime.day).as_str());
    p.append("/");
    p.append(fname.as_str());
    proof {
        assert(p@ =~= path_seq(
            datetime.year as int,
            datetime.month as int,
            datetime.day as int,
            datetime.hour as int,
            datetime.minute as int,
            datetime.second as int,
            ext@,
        ));
    }
    p
}

impl GenerateFile<u128> for FilePath {
    /// The path for a timestamp given as epoch milliseconds.
    open spec fn file_path_spec(&self, date_time: u128, extension: Seq<char>) -> Result<
        Seq<char>,
        Seq<char>,
    > {
        epoch_path_spec(date_time as int, extension)
    }

    /// The date time must be the epoch time in milliseconds.
    fn generate_file_path_from_datetime(&self, date_time: u128, extension: &str) -> (r: Result<
        String,
        String,
    >) {
        let stripped = strip_extension(extension);
        if stripped.unicode_len() == 0 {
            return Err("Invalid extension".to_owned());
        }
        if date_time > MAX_EPOCH_MILLIS as u128 {
            return Err("Cannot convert the provided epoch time".to_owned());
        }
        let civil = millis_to_civil(date_time as i64);
        Ok(convert_file_name(&civil, stripped))
    }
}

impl<'a> GenerateFile<&'a str> for FilePath {
    /// The path for a timestamp given as an ISO-8601 string.
    open spec fn file_path_spec(&self, date_time: &'a str, extension: Seq<char>) -> Result<
        Seq<char>,
        Seq<char>,
    > {
        iso_path_spec(date_time@, extension)
    }

    /// The date time must be an ISO-8601 date time string.
    fn generate_file_path_from_datetime(&self, date_time: &'a str, extension: &str) -> (r: Result<
        String,
        String,
    >) {
        let stripped = strip_extension(extension);
        if stripped.unicode_len() == 0 {
            return Err("Invalid extension".to_owned());
        }
        match parse_iso_utc(date_time) {
            None => {
                let msg = String::from_str("cannot convert the provided epoch time to datetime: ");
                Err(msg.concat(date_time))
            },
            Some(ms) => {
                if ms < MIN_EPOCH_MILLIS || ms > MAX_EPOCH_MILLIS {
                    Err("Cannot convert the provided epoch time".to_owned())
                } else {
                    let civil = millis_to_civil(ms);
                    Ok(convert_file_name(&civil, stripped))
                }
            },
        }
    }
}

} // verus!
