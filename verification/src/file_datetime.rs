//! Parsing a canonical file path back into its date time: the inverse of
//! path generation, together with the proof that a generated path parses
//! back to the calendar fields it was generated from.

use crate::civil::{civil_to_millis, millis_of_civil, valid_civil};
use crate::digits::{
    dec_spec, is_digit, lemma_dec_digits, lemma_dec_val, parse_i32, parse_i32_spec,
    parse_u32, parse_u32_spec, u32_to_string,
};
use crate::file_path::{filename_seq, path_seq};
use crate::text::{lemma_split_peel, lemma_split_whole, split_char, split_spec};
use vstd::prelude::*;

verus! {

/// The outcome of parsing a path: the error message, or the six calendar
/// fields and the bare file name.
pub enum PathParse {
    Fail(Seq<char>),
    Parsed {
        year: int,
        month: int,
        day: int,
        hour: int,
        minute: int,
        second: int,
        file_name: Seq<char>,
    },
}

/// The path with one leading slash removed, if it has one.
pub open spec fn strip_slash(s: Seq<char>) -> Seq<char> {
    if s.len() >= 1 && s[0] == '/' {
        s.skip(1)
    } else {
        s
    }
}

/// What parsing a path yields: strip one leading slash, split into exactly
/// four segments, split the file name into exactly six dash-separated
/// tokens, read year/month/day from the segments and hour/minute/second
/// from the tokens (the second token stops at a dot), and require the
/// fields to name a real UTC date time with a year between 0 and 9999.
pub open spec fn parse_path_spec(s: Seq<char>) -> PathParse {
    let segs = split_spec(strip_slash(s), '/');
    if segs.len() != 4 {
        PathParse::Fail("invalid file path is provided"@)
    } else {
        let toks = split_spec(segs[3], '-');
        if toks.len() != 6 {
            PathParse::Fail("invalid file name is provided"@)
        } else {
            let sec_str = split_spec(toks[5], '.')[0];
            match parse_i32_spec(segs[0]) {
                None => PathParse::Fail("invalid year in the file name: "@ + segs[0]),
                Some(year) => match parse_u32_spec(segs[1]) {
                    None => PathParse::Fail("invalid month in the file name: "@ + segs[1]),
                    Some(month) => match parse_u32_spec(segs[2]) {
                        None => PathParse::Fail("invalid day in the file name: "@ + segs[2]),
                        Some(day) => match parse_u32_spec(toks[3]) {
                            None => PathParse::Fail("invalid hour in the file name: "@ + toks[3]),
                            Some(hour) => match parse_u32_spec(toks[4]) {
                                None => PathParse::Fail(
                                    "invalid minute in the file name: "@ + toks[4],
                                ),
                                Some(minute) => match parse_u32_spec(sec_str) {
                                    None => PathParse::Fail(
                                        "invalid sec in the file name: "@ + sec_str,
                                    ),
                                    Some(second) => {
                                        if 0 <= year <= 9999 && valid_civil(
                                            year as int,
                                            month as int,
                                            day as int,
                                            hour as int,
                                            minute as int,
                                            second as int,
                                        ) {
                                            PathParse::Parsed {
                                                year: year as int,
                                                month: month as int,
                                                day: day as int,
                                                hour: hour as int,
                                                minute: minute as int,
                                                second: second as int,
                                                file_name: segs[3],
                                            }
                                        } else {
                                            PathParse::Fail(
                                                "Invalid path is provided, so cannot convert it."@,
                                            )
                                        }
                                    },
                                },
                            },
                        },
                    },
                },
            }
        }
    }
}

/// A number padded on the left with zeros to at least two digits.
pub open spec fn pad2(n: int) -> Seq<char> {
    if n < 10 {
        seq!['0'] + dec_spec(n)
    } else {
        dec_spec(n)
    }
}

/// A number padded on the left with zeros to at least four digits.
pub open spec fn pad4(n: int) -> Seq<char> {
    if n < 10 {
        seq!['0', '0', '0'] + dec_spec(n)
    } else if n < 100 {
        seq!['0', '0'] + dec_spec(n)
    } else if n < 1000 {
        seq!['0'] + dec_spec(n)
    } else {
        dec_spec(n)
    }
}

/// The RFC 3339 rendering of a whole-second UTC instant.
pub open spec fn iso_seq(y: int, mo: int, d: int, h: int, mi: int, s: int) -> Seq<char> {
    pad4(y) + seq!['-'] + pad2(mo) + seq!['-'] + pad2(d) + seq!['T'] + pad2(h) + seq![':'] + pad2(
        mi,
    ) + seq![':'] + pad2(s) + seq!['+', '0', '0', ':', '0', '0']
}

/// The date time a canonical path names.
#[derive(Debug)]
pub struct PathDateTime {
    pub year: i32,
    pub month: u32,
    pub day: u32,
    pub hour: u32,
    pub minute: u32,
    pub second: u32,
    /// The bare file name: the path's last segment.
    pub file_name: String,
    /// Milliseconds since the Unix epoch of the named instant.
    pub unix_time: i64,
    /// The instant rendered as RFC 3339 with a `+00:00` offset.
    pub iso_string: String,
}

impl PathDateTime {
    /// Convert from the file path to the struct: every field the path names
    /// is recovered, or the first failing step's error is reported.
    pub fn parse(file_path: &str) -> (r: Result<Self, String>)
        ensures
            match parse_path_spec(file_path@) {
                PathParse::Fail(m) => r matches Err(e) && e@ == m,
                PathParse::Parsed { year, month, day, hour, minute, second, file_name } => {
                    &&& r matches Ok(dt)
                    &&& dt.year as int == year
                    &&& dt.month as int == month
                    &&& dt.day as int == day
                    &&& dt.hour as int == hour
                    &&& dt.minute as int == minute
                    &&& dt.second as int == second
                    &&& dt.file_name@ == file_name
                    &&& Some(dt.unix_time as int) == millis_of_civil(
                        year,
                        month,
                        day,
                        hour,
                        minute,
                        second,
                    )
                    &&& dt.iso_string@ == iso_seq(year, month, day, hour, minute, second)
                },
            },
    {
        let body = remove_slash(file_path);
        let segs = split_char(body.as_str(), '/');
        proof {
            assert(segs.deep_view().len() == segs@.len());
        }
        if segs.len() != 4 {
            return Err("invalid file path is provided".to_owned());
        }
        let toks = split_char(segs[3].as_str(), '-');
        proof {
            assert(segs[3]@ == segs.deep_view()[3]);
            assert(toks.deep_view().len() == toks@.len());
        }
        if toks.len() != 6 {
            return Err("invalid file name is provided".to_owned());
        }
        let secsplit = split_char(toks[5].as_str(), '.');
        proof {
            assert(toks[5]@ == toks.deep_view()[5]);
            assert(secsplit.deep_view().len() == secsplit@.len());
            assert(split_spec(toks.deep_view()[5], '.').len() >= 1);
        }
        let sec_str = &secsplit[0];
        proof {
            assert(sec_str@ == secsplit.deep_view()[0]);
        }
        let year = match parse_i32(segs[0].as_str()) {
            Some(y) => y,
            None => {
                proof {
                    assert(segs[0]@ == segs.deep_view()[0]);
                }
                let msg = String::from_str("invalid year in the file name: ");
                return Err(msg.concat(segs[0].as_str()));
            },
        };
        let month = match parse_u32(segs[1].as_str()) {
            Some(m) => m,
            None => {
                proof {
                    assert(segs[1]@ == segs.deep_view()[1]);
                }
                let msg = String::from_str("invalid month in the file name: ");
                return Err(msg.concat(segs[1].as_str()));
            },
        };
        let day = match parse_u32(segs[2].as_str()) {
            Some(d) => d,
            None => {
                proof {
                    assert(segs[2]@ == segs.deep_view()[2]);
                }
                let msg = String::from_str("invalid day in the file name: ");
                return Err(msg.concat(segs[2].as_str()));
            },
        };
        let hour = match parse_u32(toks[3].as_str()) {
            Some(h) => h,
            None => {
                proof {
                    assert(toks[3]@ == toks.deep_view()[3]);
                }
                let msg = String::from_str("invalid hour in the file name: ");
                return Err(msg.concat(toks[3].as_str()));
            },
        };
        let minute = match parse_u32(toks[4].as_str()) {
            Some(m) => m,
            None => {
                proof {
                    assert(toks[4]@ == toks.deep_view()[4]);
                }
                let msg = String::from_str("invalid minute in the file name: ");
                return Err(msg.concat(toks[4].as_str()));
            },
        };
        let second = match parse_u32(sec_str.as_str()) {
            Some(s) => s,
            None => {
                let msg = String::from_str("invalid sec in the file name: ");
                return Err(msg.concat(sec_str.as_str()));
            },
        };
        if year < 0 || year > 9999 || !crate::civil::check_valid_civil(
            year,
            month,
            day,
            hour,
            minute,
            second,
        ) {
            return Err("Invalid path is provided, so cannot convert it.".to_owned());
        }
        let unix_time = match civil_to_millis(year, month, day, hour, minute, second) {
            Some(v) => v,
            None => {
                proof {
                    assert(false);
                }
                return Err(String::new());
            },
        };
        let iso_string = render_iso(year, month, day, hour, minute, second);
        let file_name = segs[3].clone();
        proof {
            assert(file_name@ == segs.deep_view()[3]);
        }
        Ok(
            PathDateTime {
                year,
                month,
                day,
                hour,
                minute,
                second,
                file_name,
                unix_time,
                iso_string,
            },
        )
    }
}

/// A parsed path's fields lie in the calendar's ranges: the year has at
/// most four digits and the fields name a real date and time of day.
pub proof fn lemma_parsed_ranges(s: Seq<char>)
    ensures
        parse_path_spec(s) matches PathParse::Parsed { year, month, day, hour, minute, second, .. }
            ==> 0 <= year <= 9999 && valid_civil(year, month, day, hour, minute, second),
{
}

/// The bare file name of a path: its fourth and last segment.
pub fn retrieve_file_name(path: &str) -> (r: Result<String, String>)
    ensures
        ({
            let segs = split_spec(strip_slash(path@), '/');
            if segs.len() == 4 {
                r matches Ok(f) && f@ == segs[3]
            } else {
                r matches Err(e) && e@ == "invalid file path is provided"@
            }
        }),
{
    let body = remove_slash(path);
    let segs = split_char(body.as_str(), '/');
    proof {
        assert(segs.deep_view().len() == segs@.len());
    }
    if segs.len() != 4 {
        return Err("invalid file path is provided".to_owned());
    }
    let f = segs[3].clone();
    proof {
        assert(f@ == segs.deep_view()[3]);
    }
    Ok(f)
}

/// The path without one leading slash.
fn remove_slash(path: &str) -> (r: String)
    ensures
        r@ == strip_slash(path@),
{
    let len = path.unicode_len();
    if len >= 1 && path.get_char(0) == '/' {
        let r = path.substring_char(1, len).to_owned();
        proof {
            assert(r@ =~= path@.skip(1));
        }
        r
    } else {
        path.to_owned()
    }
}

/// Render a number with at least two digits.
fn pad2_str(n: u32) -> (r: String)
    ensures
        r@ == pad2(n as int),
{
    proof {
        reveal_strlit("0");
    }
    if n < 10 {
        let mut r = String::from_str("0");
        r.append(u32_to_string(n).as_str());
        proof {
            assert(r@ =~= pad2(n as int));
        }
        r
    } else {
        u32_to_string(n)
    }
}

/// Render a non-negative number with at least four digits.
fn pad4_str(n: i32) -> (r: String)
    requires
        n >= 0,
    ensures
        r@ == pad4(n as int),
{
    proof {
        reveal_strlit("0");
        reveal_strlit("00");
        reveal_strlit("000");
    }
    let digits = crate::digits::i32_to_string(n);
    if n < 10 {
        let mut r = String::from_str("000");
        r.append(digits.as_str());
        proof {
            assert(r@ =~= pad4(n as int));
        }
        r
    } else if n < 100 {
        let mut r = String::from_str("00");
        r.append(digits.as_str());
        proof {
            assert(r@ =~= pad4(n as int));
        }
        r
    } else if n < 1000 {
        let mut r = String::from_str("0");
        r.append(digits.as_str());
        proof {
            assert(r@ =~= pad4(n as int));
        }
        r
    } else {
        digits
    }
}

/// Render the RFC 3339 string for whole-second UTC calendar fields.
#[verifier::rlimit(60)]
fn render_iso(year: i32, month: u32, day: u32, hour: u32, minute: u32, second: u32) -> (r: String)
    requires
        year >= 0,
    ensures
        r@ == iso_seq(
            year as int,
            month as int,
            day as int,
            hour as int,
            minute as int,
            second as int,
        ),
{
    proof {
        reveal_strlit("-");
        reveal_strlit("T");
        reveal_strlit(":");
        reveal_strlit("+00:00");
    }
    let mut r = pad4_str(year);
    r.append("-");
    r.append(pad2_str(month).as_str());
    r.append("-");
    r.append(pad2_str(day).as_str());
    r.append("T");
    r.append(pad2_str(hour).as_str());
    r.append(":");
    r.append(pad2_str(minute).as_str());
    r.append(":");
    r.append(pad2_str(second).as_str());
    r.append("+00:00");
    proof {
        assert(r@ =~= iso_seq(
            year as int,
            month as int,
            day as int,
            hour as int,
            minute as int,
            second as int,
        ));
    }
    r
}

/// No decimal rendering contains a slash, dash or dot.
proof fn lemma_dec_no_sep(n: int)
    requires
        n >= 0,
    ensures
        forall|i: int|
            0 <= i < dec_spec(n).len() ==> dec_spec(n)[i] != '/' && dec_spec(n)[i] != '-'
                && dec_spec(n)[i] != '.',
{
    lemma_dec_digits(n);
    assert forall|i: int|
        0 <= i < dec_spec(n).len() implies dec_spec(n)[i] != '/' && dec_spec(n)[i] != '-'
        && dec_spec(n)[i] != '.' by {
        assert(is_digit(dec_spec(n)[i]));
    }
}

/// The segments of a generated path: the three decimal prefixes and the
/// file name.
#[verifier::rlimit(100)]
proof fn lemma_path_segments(y: int, mo: int, d: int, h: int, mi: int, s: int, ext: Seq<char>)
    requires
        0 <= y,
        0 <= mo,
        0 <= d,
        0 <= h,
        0 <= mi,
        0 <= s,
        forall|i: int| 0 <= i < ext.len() ==> ext[i] != '/',
    ensures
        split_spec(strip_slash(path_seq(y, mo, d, h, mi, s, ext)), '/') == seq![
            dec_spec(y),
            dec_spec(mo),
            dec_spec(d),
            filename_seq(y, mo, d, h, mi, s, ext),
        ],
{
    let p = path_seq(y, mo, d, h, mi, s, ext);
    let fname = filename_seq(y, mo, d, h, mi, s, ext);
    lemma_dec_no_sep(y);
    lemma_dec_no_sep(mo);
    lemma_dec_no_sep(d);
    lemma_dec_no_sep(h);
    lemma_dec_no_sep(mi);
    lemma_dec_no_sep(s);
    assert(p[0] == '/');
    let body = strip_slash(p);
    let rest2 = dec_spec(d) + seq!['/'] + fname;
    let rest1 = dec_spec(mo) + seq!['/'] + rest2;
    assert(body =~= dec_spec(y) + seq!['/'] + rest1);
    lemma_split_peel(dec_spec(y), '/', rest1);
    lemma_split_peel(dec_spec(mo), '/', rest2);
    lemma_split_peel(dec_spec(d), '/', fname);
    lemma_filename_chars(y, mo, d, h, mi, s, ext);
    lemma_split_whole(fname, '/');
    assert(split_spec(body, '/') =~= seq![dec_spec(y), dec_spec(mo), dec_spec(d), fname]);
}

/// The tokens of a generated file name: the five decimal fields and the
/// seconds-with-extension tail, whose dot-split starts with the seconds.
#[verifier::rlimit(100)]
proof fn lemma_filename_tokens(y: int, mo: int, d: int, h: int, mi: int, s: int, ext: Seq<char>)
    requires
        0 <= y,
        0 <= mo,
        0 <= d,
        0 <= h,
        0 <= mi,
        0 <= s,
        forall|i: int| 0 <= i < ext.len() ==> ext[i] != '-',
    ensures
        split_spec(filename_seq(y, mo, d, h, mi, s, ext), '-') == seq![
            dec_spec(y),
            dec_spec(mo),
            dec_spec(d),
            dec_spec(h),
            dec_spec(mi),
            dec_spec(s) + seq!['.'] + ext,
        ],
        split_spec(dec_spec(s) + seq!['.'] + ext, '.')[0] == dec_spec(s),
{
    let fname = filename_seq(y, mo, d, h, mi, s, ext);
    lemma_dec_no_sep(y);
    lemma_dec_no_sep(mo);
    lemma_dec_no_sep(d);
    lemma_dec_no_sep(h);
    lemma_dec_no_sep(mi);
    lemma_dec_no_sep(s);
    let tail5 = dec_spec(s) + seq!['.'] + ext;
    let tail4 = dec_spec(mi) + seq!['-'] + tail5;
    let tail3 = dec_spec(h) + seq!['-'] + tail4;
    let tail2 = dec_spec(d) + seq!['-'] + tail3;
    let tail1 = dec_spec(mo) + seq!['-'] + tail2;
    assert(fname =~= dec_spec(y) + seq!['-'] + tail1);
    lemma_split_peel(dec_spec(y), '-', tail1);
    lemma_split_peel(dec_spec(mo), '-', tail2);
    lemma_split_peel(dec_spec(d), '-', tail3);
    lemma_split_peel(dec_spec(h), '-', tail4);
    lemma_split_peel(dec_spec(mi), '-', tail5);
    lemma_tail_dash_free(s, ext);
    lemma_split_whole(tail5, '-');
    assert(split_spec(fname, '-') =~= seq![
        dec_spec(y),
        dec_spec(mo),
        dec_spec(d),
        dec_spec(h),
        dec_spec(mi),
        tail5,
    ]);
    lemma_split_peel(dec_spec(s), '.', ext);
}

/// The seconds-and-extension tail holds no dash when the extension holds
/// none.
proof fn lemma_tail_dash_free(s: int, ext: Seq<char>)
    requires
        s >= 0,
        forall|i: int| 0 <= i < ext.len() ==> ext[i] != '-',
    ensures
        forall|i: int|
            0 <= i < (dec_spec(s) + seq!['.'] + ext).len() ==> (dec_spec(s) + seq!['.'] + ext)[i]
                != '-',
{
    lemma_dec_no_sep(s);
    let tail5 = dec_spec(s) + seq!['.'] + ext;
    assert forall|i: int| 0 <= i < tail5.len() implies tail5[i] != '-' by {
        if i < dec_spec(s).len() {
            assert(tail5[i] == dec_spec(s)[i]);
        } else if i == dec_spec(s).len() {
            assert(tail5[i] == '.');
        } else {
            assert(tail5[i] == ext[i - dec_spec(s).len() - 1]);
        }
    }
}

/// Round trip of the codec: a canonical path generated from valid calendar
/// fields and an extension free of slashes and dashes parses back to
/// exactly those fields, with the path's last segment as the file name.
#[verifier::rlimit(100)]
pub proof fn lemma_path_round_trip(y: int, mo: int, d: int, h: int, mi: int, s: int, ext: Seq<char>)
    requires
        0 <= y <= 9999,
        valid_civil(y, mo, d, h, mi, s),
        ext.len() > 0,
        forall|i: int| 0 <= i < ext.len() ==> ext[i] != '/' && ext[i] != '-',
    ensures
        parse_path_spec(path_seq(y, mo, d, h, mi, s, ext)) == (PathParse::Parsed {
            year: y,
            month: mo,
            day: d,
            hour: h,
            minute: mi,
            second: s,
            file_name: filename_seq(y, mo, d, h, mi, s, ext),
        }),
{
    let p = path_seq(y, mo, d, h, mi, s, ext);
    let fname = filename_seq(y, mo, d, h, mi, s, ext);
    lemma_path_segments(y, mo, d, h, mi, s, ext);
    lemma_filename_tokens(y, mo, d, h, mi, s, ext);
    lemma_parse_back(y, mo, d, h, mi, s);
    let segs = split_spec(strip_slash(p), '/');
    let toks = split_spec(fname, '-');
    assert(segs.len() == 4);
    assert(toks.len() == 6);
    assert(segs[3] == fname);
    assert(parse_i32_spec(segs[0]) == Some(y as i32));
    assert(parse_u32_spec(segs[1]) == Some(mo as u32));
    assert(parse_u32_spec(segs[2]) == Some(d as u32));
    assert(parse_u32_spec(toks[3]) == Some(h as u32));
    assert(parse_u32_spec(toks[4]) == Some(mi as u32));
    assert(parse_u32_spec(split_spec(toks[5], '.')[0]) == Some(s as u32));
}

/// Every character of the file name other than its separators comes from a
/// decimal field, the dot, or the extension; none is a slash.
proof fn lemma_filename_chars(y: int, mo: int, d: int, h: int, mi: int, s: int, ext: Seq<char>)
    requires
        y >= 0,
        mo >= 0,
        d >= 0,
        h >= 0,
        mi >= 0,
        s >= 0,
        forall|i: int| 0 <= i < ext.len() ==> ext[i] != '/',
    ensures
        forall|i: int|
            0 <= i < filename_seq(y, mo, d, h, mi, s, ext).len() ==> filename_seq(
                y,
                mo,
                d,
                h,
                mi,
                s,
                ext,
            )[i] != '/',
{
    lemma_dec_no_sep(y);
    lemma_dec_no_sep(mo);
    lemma_dec_no_sep(d);
    lemma_dec_no_sep(h);
    lemma_dec_no_sep(mi);
    lemma_dec_no_sep(s);
    let f = filename_seq(y, mo, d, h, mi, s, ext);
    assert forall|i: int| 0 <= i < f.len() implies f[i] != '/' by {
        lemma_filename_index(y, mo, d, h, mi, s, ext, i);
    }
}

/// Which part of the file name an index falls in.
proof fn lemma_filename_index(
    y: int,
    mo: int,
    d: int,
    h: int,
    mi: int,
    s: int,
    ext: Seq<char>,
    i: int,
)
    requires
        0 <= i < filename_seq(y, mo, d, h, mi, s, ext).len(),
    ensures
        ({
            let f = filename_seq(y, mo, d, h, mi, s, ext);
            ||| dec_spec(y).contains(f[i])
            ||| dec_spec(mo).contains(f[i])
            ||| dec_spec(d).contains(f[i])
            ||| dec_spec(h).contains(f[i])
            ||| dec_spec(mi).contains(f[i])
            ||| dec_spec(s).contains(f[i])
            ||| ext.contains(f[i])
            ||| f[i] == '-'
            ||| f[i] == '.'
        }),
{
}

/// Each rendered calendar field parses back to its value.
proof fn lemma_parse_back(y: int, mo: int, d: int, h: int, mi: int, s: int)
    requires
        0 <= y <= 9999,
        0 <= mo <= 12,
        0 <= d <= 31,
        0 <= h <= 23,
        0 <= mi <= 59,
        0 <= s <= 59,
    ensures
        parse_i32_spec(dec_spec(y)) == Some(y as i32),
        parse_u32_spec(dec_spec(mo)) == Some(mo as u32),
        parse_u32_spec(dec_spec(d)) == Some(d as u32),
        parse_u32_spec(dec_spec(h)) == Some(h as u32),
        parse_u32_spec(dec_spec(mi)) == Some(mi as u32),
        parse_u32_spec(dec_spec(s)) == Some(s as u32),
{
    lemma_dec_digits(y);
    lemma_dec_val(y);
    assert(dec_spec(y)[0] != '-') by {
        assert(is_digit(dec_spec(y)[0]));
    }
    lemma_dec_digits(mo);
    lemma_dec_val(mo);
    lemma_dec_digits(d);
    lemma_dec_val(d);
    lemma_dec_digits(h);
    lemma_dec_val(h);
    lemma_dec_digits(mi);
    lemma_dec_val(mi);
    lemma_dec_digits(s);
    lemma_dec_val(s);
}

} // verus!
