//! The text grammar of the telemetry fields that ExifTool reports for a
//! Vantrue clip: DMS coordinates, date-times, accelerometer triples, speed
//! units and `Doc` group names.  Turning the decimal pieces into floating-point
//! values is left to the caller.
use vstd::prelude::*;
use crate::text::{
    chars_of, find_from, parse_unsigned, parse_unsigned_chars, slice_of, split_all, split_in_two,
    split_on, split_words, string_of, trim, trim_chars, trim_end_char, trim_end_matching,
    trim_start_matching, trim_start_seq, words, first_match_from,
};

verus! {

/// The separator between degrees and minutes in a DMS coordinate.
pub open spec fn deg_separator() -> Seq<char> {
    seq![' ', 'd', 'e', 'g', ' ']
}

/// `str::starts_with` with a single character.
pub open spec fn starts_with_char(s: Seq<char>, c: char) -> bool {
    s.len() > 0 && s[0] == c
}

/// The decimal pieces of a DMS coordinate such as `39 deg 59' 2.18" N`:
/// degrees, minutes, seconds, and whether the direction is south or west.
pub struct DmsParts {
    pub degrees: String,
    pub minutes: String,
    pub seconds: String,
    pub negative: bool,
}

/// The pieces that `split_dms` finds in `s`, or `None` where the text is not
/// of the form `<deg> deg <min>'<sec>["] <dir>`.
pub open spec fn dms_pieces(s: Seq<char>) -> Option<(Seq<char>, Seq<char>, Seq<char>, bool)> {
    let parts = split_on(trim(s), deg_separator());
    if parts.len() != 2 {
        None
    } else {
        let min_parts = split_on(parts[1], seq!['\'']);
        if min_parts.len() != 2 {
            None
        } else {
            let sec_parts = words(trim(min_parts[1]));
            if sec_parts.len() != 2 {
                None
            } else {
                Some(
                    (
                        parts[0],
                        trim(min_parts[0]),
                        trim_end_char(sec_parts[0], '"'),
                        starts_with_char(sec_parts[1], 'S') || starts_with_char(sec_parts[1], 'W'),
                    ),
                )
            }
        }
    }
}

/// Splits a DMS coordinate into its decimal pieces.
pub fn split_dms(s: &str) -> (r: Option<DmsParts>)
    ensures
        r is Some == dms_pieces(s@) is Some,
        r matches Some(p) ==> dms_pieces(s@) == Some(
            (p.degrees@, p.minutes@, p.seconds@, p.negative),
        ),
{
    let v = chars_of(s);
    let t = trim_chars(&v);
    let sep = vec![' ', 'd', 'e', 'g', ' '];
    assert(sep@ == deg_separator());
    let (deg, rest) = match split_in_two(&t, &sep) {
        Some(p) => p,
        None => {
            return None;
        },
    };
    let quote = vec!['\''];
    assert(quote@ == seq!['\'']);
    let (min_raw, sec_dir_raw) = match split_in_two(&rest, &quote) {
        Some(p) => p,
        None => {
            return None;
        },
    };
    let min = trim_chars(&min_raw);
    let sec_dir = trim_chars(&sec_dir_raw);
    let sec_parts = split_words(&sec_dir);
    if sec_parts.len() != 2 {
        return None;
    }
    let sec = trim_end_matching(&sec_parts[0], '"');
    let dir = &sec_parts[1];
    let negative = (dir.len() > 0 && dir[0] == 'S') || (dir.len() > 0 && dir[0] == 'W');
    Some(
        DmsParts {
            degrees: string_of(&deg),
            minutes: string_of(&min),
            seconds: string_of(&sec),
            negative,
        },
    )
}

/// The first position of `c` in `s`.
pub open spec fn first_index_of(s: Seq<char>, c: char) -> Option<int> {
    first_match_from(s, seq![c], 0)
}

/// A date-time with its time zone removed: everything from the first `+`
/// on, or else one trailing `Z`, is dropped, and the rest is trimmed.
pub open spec fn without_zone(s: Seq<char>) -> Seq<char> {
    let t = trim(s);
    let u = match first_index_of(t, '+') {
        Some(i) => t.take(i),
        None => if t.len() > 0 && t.last() == 'Z' {
            t.drop_last()
        } else {
            t
        },
    };
    trim(u)
}

/// The numbers among the pieces, in order (`filter_map` of `parse::<u64>`).
pub open spec fn parsed_u64s(pieces: Seq<Seq<char>>) -> Seq<u64>
    decreases pieces.len(),
{
    if pieces.len() == 0 {
        seq![]
    } else {
        let head = match parse_unsigned(pieces[0], u64::MAX as nat) {
            Some(n) => seq![n as u64],
            None => seq![],
        };
        head + parsed_u64s(pieces.drop_first())
    }
}

/// The date numbers and the raw time pieces of an ExifTool date-time such as
/// `2026:03:07 17:14:45Z`.
pub struct DateTimeText {
    /// The `:`-separated date pieces that parse as `u64`, in order.
    pub date_fields: Vec<u64>,
    /// The `:`-separated time pieces, unparsed.
    pub time_fields: Vec<String>,
}

/// The date numbers and time pieces that `split_datetime` finds, or `None`
/// where the zone-free text holds no space.
pub open spec fn datetime_pieces(s: Seq<char>) -> Option<(Seq<u64>, Seq<Seq<char>>)> {
    let u = without_zone(s);
    match first_index_of(u, ' ') {
        None => None,
        Some(i) => Some(
            (
                parsed_u64s(split_on(u.take(i), seq![':'])),
                split_on(u.skip(i + 1), seq![':']),
            ),
        ),
    }
}

/// Splits a date-time into its date numbers and time pieces.
pub fn split_datetime(s: &str) -> (r: Option<DateTimeText>)
    ensures
        r is Some == datetime_pieces(s@) is Some,
        r matches Some(d) ==> {
            let (date, time) = datetime_pieces(s@)->0;
            &&& d.date_fields@ == date
            &&& d.time_fields@.len() == time.len()
            &&& forall|k: int| 0 <= k < time.len() ==> #[trigger] d.time_fields@[k]@ == time[k]
        },
{
    let v = chars_of(s);
    let t = trim_chars(&v);
    let plus = vec!['+'];
    assert(plus@ == seq!['+']);
    let cut = match find_from(&t, &plus, 0) {
        Some(i) => slice_of(&t, 0, i),
        None => if t.len() > 0 && t[t.len() - 1] == 'Z' {
            slice_of(&t, 0, t.len() - 1)
        } else {
            slice_of(&t, 0, t.len())
        },
    };
    proof {
        assert(t@.subrange(0, t@.len() as int) == t@);
        if t@.len() > 0 {
            assert(t@.subrange(0, t@.len() - 1) == t@.drop_last());
        }
    }
    proof {
        let tt = trim(s@);
        assert(t@ == tt);
        match first_index_of(tt, '+') {
            Some(i) => {
                assert(cut@ == tt.take(i));
            },
            None => {
                assert(cut@ == (if tt.len() > 0 && tt.last() == 'Z' {
                    tt.drop_last()
                } else {
                    tt
                }));
            },
        }
    }
    let u = trim_chars(&cut);
    assert(u@ == without_zone(s@));
    let space = vec![' '];
    assert(space@ == seq![' ']);
    let i = match find_from(&u, &space, 0) {
        Some(i) => i,
        None => {
            return None;
        },
    };
    let date_text = slice_of(&u, 0, i);
    let time_text = slice_of(&u, i + 1, u.len());
    let colon = vec![':'];
    assert(colon@ == seq![':']);
    let date_pieces = split_all(&date_text, &colon);
    let time_pieces = split_all(&time_text, &colon);
    let ghost dp = split_on(date_text@, seq![':']);
    let mut date_fields: Vec<u64> = Vec::new();
    let mut k: usize = 0;
    assert(dp.skip(0) == dp);
    assert(date_fields@ + parsed_u64s(dp) == parsed_u64s(dp));
    while k < date_pieces.len()
        invariant
            k <= date_pieces@.len() == dp.len(),
            forall|j: int| 0 <= j < dp.len() ==> #[trigger] date_pieces@[j]@ == dp[j],
            parsed_u64s(dp) == date_fields@ + parsed_u64s(dp.skip(k as int)),
        decreases date_pieces.len() - k,
    {
        assert(dp.skip(k as int)[0] == dp[k as int]);
        assert(dp.skip(k as int).drop_first() == dp.skip(k + 1));
        match parse_unsigned_chars(&date_pieces[k], u64::MAX) {
            Some(n) => {
                date_fields.push(n);
                assert(date_fields@ + parsed_u64s(dp.skip(k + 1)) == (date_fields@.drop_last()
                    + seq![n]) + parsed_u64s(dp.skip(k + 1)));
            },
            None => {},
        }
        k = k + 1;
    }
    assert(dp.skip(k as int).len() == 0);
    assert(date_fields@ + parsed_u64s(dp.skip(k as int)) == date_fields@);
    let mut time_fields: Vec<String> = Vec::new();
    let mut j: usize = 0;
    while j < time_pieces.len()
        invariant
            j <= time_pieces@.len(),
            time_fields@.len() == j,
            forall|m: int| 0 <= m < j ==> #[trigger] time_fields@[m]@ == time_pieces@[m]@,
        decreases time_pieces.len() - j,
    {
        time_fields.push(string_of(&time_pieces[j]));
        j = j + 1;
    }
    Some(DateTimeText { date_fields, time_fields })
}

/// The whitespace-separated pieces of `s` (`str::split_whitespace`), as used
/// for an accelerometer reading such as `-0.02 -0.776 -0.342`.
pub fn split_whitespace_pieces(s: &str) -> (r: Vec<String>)
    ensures
        r@.len() == words(s@).len(),
        forall|k: int| 0 <= k < r@.len() ==> #[trigger] r@[k]@ == words(s@)[k],
{
    let v = chars_of(s);
    let pieces = split_words(&v);
    let mut r: Vec<String> = Vec::new();
    let mut j: usize = 0;
    while j < pieces.len()
        invariant
            j <= pieces@.len() == words(v@).len(),
            v@ == s@,
            forall|k: int| 0 <= k < pieces@.len() ==> #[trigger] pieces@[k]@ == words(v@)[k],
            r@.len() == j,
            forall|m: int| 0 <= m < j ==> #[trigger] r@[m]@ == pieces@[m]@,
        decreases pieces.len() - j,
    {
        r.push(string_of(&pieces[j]));
        j = j + 1;
    }
    r
}

/// The unit of a GPS speed, as given by ExifTool's `GPSSpeedRef`.
#[derive(Debug, Clone, Copy, PartialEq, Eq, Structural)]
pub enum SpeedUnit {
    /// Kilometres per hour, the dashcam's own unit.
    Kmh,
    /// Miles per hour.
    Mph,
    /// Knots.
    Knots,
}

/// The unit that a `GPSSpeedRef` value names: after trimming, `K`, `M` or `N`
/// in either case; anything else is taken as km/h.
pub open spec fn spec_speed_unit(speed_ref: Seq<char>) -> SpeedUnit {
    let t = trim(speed_ref);
    if t == seq!['M'] || t == seq!['m'] {
        SpeedUnit::Mph
    } else if t == seq!['N'] || t == seq!['n'] {
        SpeedUnit::Knots
    } else {
        SpeedUnit::Kmh
    }
}

/// The unit that a `GPSSpeedRef` value names.
pub fn speed_unit(speed_ref: &str) -> (u: SpeedUnit)
    ensures
        u == spec_speed_unit(speed_ref@),
{
    let v = chars_of(speed_ref);
    let t = trim_chars(&v);
    if t.len() == 1 && (t[0] == 'M' || t[0] == 'm') {
        assert(t@ == seq![t@[0]]);
        SpeedUnit::Mph
    } else if t.len() == 1 && (t[0] == 'N' || t[0] == 'n') {
        assert(t@ == seq![t@[0]]);
        SpeedUnit::Knots
    } else {
        proof {
            if t@ == seq!['M'] || t@ == seq!['m'] || t@ == seq!['N'] || t@ == seq!['n'] {
                assert(t@.len() == 1);
                assert(t@[0] == 'M' || t@[0] == 'm' || t@[0] == 'N' || t@[0] == 'n');
            }
        }
        SpeedUnit::Kmh
    }
}

/// The `Doc` group prefix.
pub open spec fn doc_prefix() -> Seq<char> {
    seq!['D', 'o', 'c']
}

/// The number of a `Doc` group name: the name with every leading `Doc`
/// removed, parsed as `u32`, or 0 where it does not parse.
pub open spec fn spec_doc_number(doc_id: Seq<char>) -> u32 {
    match parse_unsigned(trim_start_seq(doc_id, doc_prefix()), u32::MAX as nat) {
        Some(n) => n as u32,
        None => 0,
    }
}

/// The number of a `Doc` group name (`Doc12` → 12).
pub fn doc_number(doc_id: &[char]) -> (n: u32)
    ensures
        n == spec_doc_number(doc_id@),
{
    let pre = vec!['D', 'o', 'c'];
    assert(pre@ == doc_prefix());
    let rest = trim_start_matching(doc_id, &pre);
    match parse_unsigned_chars(&rest, u32::MAX as u64) {
        Some(n) => n as u32,
        None => 0,
    }
}

} // verus!
