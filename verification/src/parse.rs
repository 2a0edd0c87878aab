//! Reading sizes, counts, ranges and names from text.

use vstd::prelude::*;
use crate::alphabet::chars_of;
use crate::args::{ByteSize, ByteUnit, IntRange, Size, UnicodeEncoding, Unit, UuidVersion};

verus! {

/// Why a text was not understood.
#[derive(Debug, Clone, Copy, PartialEq, Eq, Structural)]
pub enum ParseError {
    /// The text does not have the expected form, or a number is too large.
    ValueValidation,
    /// The text has the expected form, but the value is not allowed.
    InvalidValue,
}

/// One of the digits `0` to `9`.
pub open spec fn is_digit(c: char) -> bool {
    48 <= c as u32 <= 57
}

/// Every character is a digit.
pub open spec fn all_digits(s: Seq<char>) -> bool {
    forall|i: int| 0 <= i < s.len() ==> is_digit(#[trigger] s[i])
}

/// The number that a run of digits writes in decimal.
pub open spec fn number(s: Seq<char>) -> int
    decreases s.len(),
{
    if s.len() == 0 {
        0
    } else {
        number(s.drop_last()) * 10 + (s.last() as u32 - 48)
    }
}

/// The end of the run of digits that starts at `from`.
pub open spec fn digit_run(s: Seq<char>, from: int) -> int
    decreases s.len() - from,
{
    if 0 <= from < s.len() && is_digit(s[from]) {
        digit_run(s, from + 1)
    } else {
        from
    }
}

/// The first place at or after `from` where two dots stand side by side.
pub open spec fn find_dots(s: Seq<char>, from: int) -> Option<int>
    decreases s.len() - from,
{
    if from < 0 || from + 1 >= s.len() {
        None
    } else if s[from] == '.' && s[from + 1] == '.' {
        Some(from)
    } else {
        find_dots(s, from + 1)
    }
}

/// The integer that a text writes: an optional sign and at least one digit.
pub open spec fn integer_of(s: Seq<char>) -> Option<int> {
    let signed = s.len() > 0 && (s[0] == '-' || s[0] == '+');
    let body = if signed {
        s.skip(1)
    } else {
        s
    };
    if body.len() == 0 || !all_digits(body) {
        None
    } else if signed && s[0] == '-' {
        Some(-number(body))
    } else {
        Some(number(body))
    }
}

/// The 64-bit integer that a text writes, if it writes one.
pub open spec fn i64_of(s: Seq<char>) -> Option<i64> {
    match integer_of(s) {
        Some(v) => if i64::MIN <= v <= i64::MAX {
            Some(v as i64)
        } else {
            None
        },
        None => None,
    }
}

/// The range that a text writes: two 64-bit integers with two dots between.
pub open spec fn int_range_of(s: Seq<char>) -> Result<IntRange, ParseError> {
    match find_dots(s, 0) {
        Some(at) => match (i64_of(s.take(at)), i64_of(s.skip(at + 2))) {
            (Some(min), Some(max)) => Ok(IntRange { min, max }),
            _ => Err(ParseError::ValueValidation),
        },
        None => Err(ParseError::ValueValidation),
    }
}

/// The unit of a byte size that a text names.
pub open spec fn byte_unit_of(s: Seq<char>) -> Option<ByteUnit> {
    if s == "B"@ || s == "b"@ {
        Some(ByteUnit::B)
    } else if s == "kb"@ || s == "kB"@ || s == "KB"@ {
        Some(ByteUnit::KB)
    } else if s == "kib"@ || s == "KiB"@ {
        Some(ByteUnit::KiB)
    } else if s == "mb"@ || s == "mB"@ || s == "MB"@ {
        Some(ByteUnit::MB)
    } else if s == "mib"@ || s == "MiB"@ {
        Some(ByteUnit::MiB)
    } else if s == "gb"@ || s == "gB"@ || s == "GB"@ {
        Some(ByteUnit::GB)
    } else if s == "gib"@ || s == "GiB"@ {
        Some(ByteUnit::GiB)
    } else {
        None
    }
}

/// The unit of a count that a text names; no text names no unit.
pub open spec fn unit_of(s: Seq<char>) -> Option<Unit> {
    if s == ""@ {
        Some(Unit::One)
    } else if s == "k"@ || s == "K"@ {
        Some(Unit::K)
    } else if s == "m"@ || s == "M"@ {
        Some(Unit::M)
    } else if s == "b"@ || s == "B"@ {
        Some(Unit::B)
    } else if s == "t"@ || s == "T"@ {
        Some(Unit::T)
    } else {
        None
    }
}

/// The UUID version that a text names.
pub open spec fn uuid_version_of(s: Seq<char>) -> Option<UuidVersion> {
    if s == "empty"@ {
        Some(UuidVersion::Empty)
    } else if s == "4"@ || s == "v4"@ || s == "ver4"@ || s == "version4"@ {
        Some(UuidVersion::V4)
    } else if s == "max"@ {
        Some(UuidVersion::Max)
    } else {
        None
    }
}

/// The Unicode encoding that a text names.
pub open spec fn unicode_encoding_of(s: Seq<char>) -> Option<UnicodeEncoding> {
    if s == "utf_8"@ || s == "utf-8"@ || s == "utf8"@ || s == "8"@ {
        Some(UnicodeEncoding::Utf8)
    } else if s == "utf_16"@ || s == "utf-16"@ || s == "utf16"@ || s == "16"@ {
        Some(UnicodeEncoding::Utf16)
    } else if s == "utf_32"@ || s == "utf-32"@ || s == "utf32"@ || s == "32"@ {
        Some(UnicodeEncoding::Utf32)
    } else {
        None
    }
}

/// The byte size that a text writes: digits, as many as there are at its
/// start, and the name of a unit.
pub open spec fn byte_size_of(s: Seq<char>) -> Result<ByteSize, ParseError> {
    let end = digit_run(s, 0);
    let value = number(s.take(end));
    if end == 0 || value > usize::MAX {
        Err(ParseError::ValueValidation)
    } else {
        match byte_unit_of(s.skip(end)) {
            Some(unit) => Ok(ByteSize { value: value as usize, unit }),
            None => Err(ParseError::ValueValidation),
        }
    }
}

/// The count that a text writes: digits, as many as there are at its start,
/// and the name of a unit if any. A count of zero is not allowed.
pub open spec fn size_of(s: Seq<char>) -> Result<Size, ParseError> {
    let end = digit_run(s, 0);
    let value = number(s.take(end));
    if end == 0 || value > usize::MAX {
        Err(ParseError::ValueValidation)
    } else if value == 0 {
        Err(ParseError::InvalidValue)
    } else {
        match unit_of(s.skip(end)) {
            Some(unit) => Ok(Size { value: value as usize, unit }),
            None => Err(ParseError::ValueValidation),
        }
    }
}

/// A run of digits writes a number that is at least the number written by
/// any of its beginnings.
proof fn lemma_number_grows(s: Seq<char>, i: int)
    requires
        all_digits(s),
        0 <= i <= s.len(),
    ensures
        0 <= number(s.take(i)) <= number(s),
    decreases s.len(),
{
    if i == s.len() {
        assert(s.take(i) =~= s);
        if s.len() > 0 {
            lemma_number_grows(s.drop_last(), i - 1);
            assert(s.drop_last().take(i - 1) =~= s.drop_last());
            assert(is_digit(s.last()));
        }
    } else {
        lemma_number_grows(s.drop_last(), i);
        assert(s.drop_last().take(i) =~= s.take(i));
        assert(is_digit(s.last()));
    }
}

fn digit_of(c: char) -> (d: Option<u8>)
    ensures
        d == (if is_digit(c) {
            Some((c as u32 - 48) as u8)
        } else {
            None
        }),
{
    let code: u32 = c as u32;
    if 48 <= code && code <= 57 {
        Some((code - 48) as u8)
    } else {
        None
    }
}

/// Reads the characters `from..to` as a number of at most `limit`.
fn read_number(v: &Vec<char>, from: usize, to: usize, limit: u64) -> (r: Option<u64>)
    requires
        from <= to <= v@.len(),
    ensures
        ({
            let s = v@.subrange(from as int, to as int);
            match r {
                Some(n) => from < to && all_digits(s) && n == number(s) && n <= limit,
                None => !(from < to && all_digits(s) && number(s) <= limit),
            }
        }),
{
    let ghost s = v@.subrange(from as int, to as int);
    if from == to {
        return None;
    }
    let mut acc: u64 = 0;
    let mut i: usize = from;
    proof {
        assert(s.take(0) =~= Seq::<char>::empty());
    }
    while i < to
        invariant
            from <= i <= to <= v@.len(),
            s == v@.subrange(from as int, to as int),
            all_digits(s.take(i - from)),
            acc == number(s.take(i - from)),
            acc <= limit,
        decreases to - i,
    {
        let ghost seen = s.take(i - from);
        let ghost next_seen = s.take(i - from + 1);
        proof {
            assert(next_seen.drop_last() =~= seen);
            assert(next_seen.last() == v@[i as int]);
        }
        match digit_of(v[i]) {
            None => {
                assert(!is_digit(s[i - from]));
                return None;
            },
            Some(d) => {
                let next: u128 = acc as u128 * 10 + d as u128;
                assert(all_digits(next_seen));
                if next > limit as u128 {
                    proof {
                        if all_digits(s) {
                            lemma_number_grows(s, i - from + 1);
                        }
                    }
                    return None;
                }
                acc = next as u64;
            },
        }
        i += 1;
    }
    assert(s.take(to - from) =~= s);
    Some(acc)
}

/// Reads the characters `from..to` as a 64-bit integer.
fn read_i64(v: &Vec<char>, from: usize, to: usize) -> (r: Option<i64>)
    requires
        from <= to <= v@.len(),
    ensures
        r == i64_of(v@.subrange(from as int, to as int)),
{
    let ghost s = v@.subrange(from as int, to as int);
    let negative: bool = from < to && v[from] == '-';
    let signed: bool = from < to && (v[from] == '-' || v[from] == '+');
    let start: usize = if signed {
        from + 1
    } else {
        from
    };
    proof {
        if signed {
            assert(s.skip(1) =~= v@.subrange(start as int, to as int));
        }
        if start < to && all_digits(v@.subrange(start as int, to as int)) {
            lemma_number_grows(v@.subrange(start as int, to as int), 0);
        }
    }
    match read_number(v, start, to, 9223372036854775808) {
        None => None,
        Some(magnitude) => {
            if negative {
                if magnitude == 9223372036854775808 {
                    Some(i64::MIN)
                } else {
                    Some(-(magnitude as i64))
                }
            } else if magnitude > 9223372036854775807 {
                None
            } else {
                Some(magnitude as i64)
            }
        },
    }
}

/// Whether the characters of `v` from `from` on are those of `text`.
fn rest_is(v: &Vec<char>, from: usize, text: &str) -> (r: bool)
    requires
        from <= v@.len(),
    ensures
        r == (v@.skip(from as int) == text@),
{
    let t = chars_of(text);
    if v.len() - from != t.len() {
        assert(v@.skip(from as int).len() != t@.len());
        return false;
    }
    let mut i: usize = 0;
    assert(v@.len() <= usize::MAX);
    while i < t.len()
        invariant
            i <= t@.len(),
            t@ == text@,
            from + t@.len() == v@.len(),
            v@.len() <= usize::MAX,
            forall|j: int| 0 <= j < i ==> v@[from + j] == t@[j],
        decreases t.len() - i,
    {
        if v[from + i] != t[i] {
            assert(v@.skip(from as int)[i as int] != t@[i as int]);
            return false;
        }
        i += 1;
    }
    assert(v@.skip(from as int) =~= t@);
    true
}

fn read_byte_unit(v: &Vec<char>, from: usize) -> (r: Option<ByteUnit>)
    requires
        from <= v@.len(),
    ensures
        r == byte_unit_of(v@.skip(from as int)),
{
    if rest_is(v, from, "B") || rest_is(v, from, "b") {
        Some(ByteUnit::B)
    } else if rest_is(v, from, "kb") || rest_is(v, from, "kB") || rest_is(v, from, "KB") {
        Some(ByteUnit::KB)
    } else if rest_is(v, from, "kib") || rest_is(v, from, "KiB") {
        Some(ByteUnit::KiB)
    } else if rest_is(v, from, "mb") || rest_is(v, from, "mB") || rest_is(v, from, "MB") {
        Some(ByteUnit::MB)
    } else if rest_is(v, from, "mib") || rest_is(v, from, "MiB") {
        Some(ByteUnit::MiB)
    } else if rest_is(v, from, "gb") || rest_is(v, from, "gB") || rest_is(v, from, "GB") {
        Some(ByteUnit::GB)
    } else if rest_is(v, from, "gib") || rest_is(v, from, "GiB") {
        Some(ByteUnit::GiB)
    } else {
        None
    }
}

fn read_unit(v: &Vec<char>, from: usize) -> (r: Option<Unit>)
    requires
        from <= v@.len(),
    ensures
        r == unit_of(v@.skip(from as int)),
{
    if rest_is(v, from, "") {
        Some(Unit::One)
    } else if rest_is(v, from, "k") || rest_is(v, from, "K") {
        Some(Unit::K)
    } else if rest_is(v, from, "m") || rest_is(v, from, "M") {
        Some(Unit::M)
    } else if rest_is(v, from, "b") || rest_is(v, from, "B") {
        Some(Unit::B)
    } else if rest_is(v, from, "t") || rest_is(v, from, "T") {
        Some(Unit::T)
    } else {
        None
    }
}

/// Reads the digits at the start of `v`: where they end, and the number they
/// write if it fits in `usize`.
fn read_leading_number(v: &Vec<char>) -> (r: (usize, Option<usize>))
    ensures
        r.0 == digit_run(v@, 0),
        r.0 <= v@.len(),
        0 <= number(v@.take(r.0 as int)),
        match r.1 {
            Some(n) => r.0 > 0 && n == number(v@.take(r.0 as int)),
            None => r.0 == 0 || number(v@.take(r.0 as int)) > usize::MAX,
        },
{
    let mut end: usize = 0;
    while end < v.len() && digit_of(v[end]).is_some()
        invariant
            end <= v@.len(),
            digit_run(v@, 0) == digit_run(v@, end as int),
            all_digits(v@.take(end as int)),
        decreases v.len() - end,
    {
        assert(v@.take(end + 1).drop_last() =~= v@.take(end as int));
        end += 1;
    }
    assert(v@.subrange(0, end as int) =~= v@.take(end as int));
    assert(end == digit_run(v@, 0));
    proof {
        lemma_number_grows(v@.take(end as int), 0);
    }
    let value: Option<usize> = match read_number(v, 0, end, usize::MAX as u64) {
        Some(n) => {
            assert(n == number(v@.take(end as int)));
            Some(n as usize)
        },
        None => None,
    };
    (end, value)
}

impl ByteUnit {
    /// Reads the name of a unit: `B`, `KB`, `KiB`, `MB`, `MiB`, `GB` or
    /// `GiB`, or one of the other spellings that `byte_unit_of` lists.
    pub fn parse(s: &str) -> (r: Result<ByteUnit, ParseError>)
        ensures
            r == (match byte_unit_of(s@) {
                Some(unit) => Ok::<ByteUnit, ParseError>(unit),
                None => Err(ParseError::ValueValidation),
            }),
    {
        let v = chars_of(s);
        assert(v@.skip(0) =~= s@);
        match read_byte_unit(&v, 0) {
            Some(unit) => Ok(unit),
            None => Err(ParseError::ValueValidation),
        }
    }
}

impl Unit {
    /// Reads the name of a unit: nothing, `k`, `m`, `b` or `t`, in either case.
    pub fn parse(s: &str) -> (r: Result<Unit, ParseError>)
        ensures
            r == (match unit_of(s@) {
                Some(unit) => Ok::<Unit, ParseError>(unit),
                None => Err(ParseError::ValueValidation),
            }),
    {
        let v = chars_of(s);
        assert(v@.skip(0) =~= s@);
        match read_unit(&v, 0) {
            Some(unit) => Ok(unit),
            None => Err(ParseError::ValueValidation),
        }
    }
}

impl ByteSize {
    /// Reads a byte size such as `10MB`.
    pub fn parse(s: &str) -> (r: Result<ByteSize, ParseError>)
        ensures
            r == byte_size_of(s@),
    {
        let v = chars_of(s);
        let (end, value) = read_leading_number(&v);
        match value {
            None => Err(ParseError::ValueValidation),
            Some(value) => match read_byte_unit(&v, end) {
                Some(unit) => Ok(ByteSize { value, unit }),
                None => Err(ParseError::ValueValidation),
            },
        }
    }
}

impl Size {
    /// Reads a count such as `250` or `3k`.
    pub fn parse(s: &str) -> (r: Result<Size, ParseError>)
        ensures
            r == size_of(s@),
    {
        let v = chars_of(s);
        let (end, value) = read_leading_number(&v);
        match value {
            None => Err(ParseError::ValueValidation),
            Some(value) => {
                if value == 0 {
                    return Err(ParseError::InvalidValue);
                }
                match read_unit(&v, end) {
                    Some(unit) => Ok(Size { value, unit }),
                    None => Err(ParseError::ValueValidation),
                }
            },
        }
    }
}

impl IntRange {
    /// Reads a range such as `0..99` or `-5..+5`.
    pub fn parse(s: &str) -> (r: Result<IntRange, ParseError>)
        ensures
            r == int_range_of(s@),
    {
        let v = chars_of(s);
        let mut at: usize = 0;
        while v.len() - at >= 2 && !(v[at] == '.' && v[at + 1] == '.')
            invariant
                at <= v@.len(),
                find_dots(v@, 0) == find_dots(v@, at as int),
            decreases v.len() - at,
        {
            at += 1;
        }
        if v.len() - at < 2 {
            return Err(ParseError::ValueValidation);
        }
        proof {
            assert(v@.take(at as int) =~= v@.subrange(0, at as int));
            assert(v@.skip(at + 2) =~= v@.subrange(at + 2, v@.len() as int));
        }
        match (read_i64(&v, 0, at), read_i64(&v, at + 2, v.len())) {
            (Some(min), Some(max)) => Ok(IntRange { min, max }),
            _ => Err(ParseError::ValueValidation),
        }
    }
}

impl UuidVersion {
    /// Reads the name of a version: `empty`, `max`, or `4`, `v4`, `ver4`,
    /// `version4`.
    pub fn parse(s: &str) -> (r: Result<UuidVersion, ParseError>)
        ensures
            r == (match uuid_version_of(s@) {
                Some(version) => Ok::<UuidVersion, ParseError>(version),
                None => Err(ParseError::ValueValidation),
            }),
    {
        let v = chars_of(s);
        assert(v@.skip(0) =~= s@);
        if rest_is(&v, 0, "empty") {
            Ok(UuidVersion::Empty)
        } else if rest_is(&v, 0, "4") || rest_is(&v, 0, "v4") || rest_is(&v, 0, "ver4") || rest_is(
            &v,
            0,
            "version4",
        ) {
            Ok(UuidVersion::V4)
        } else if rest_is(&v, 0, "max") {
            Ok(UuidVersion::Max)
        } else {
            Err(ParseError::ValueValidation)
        }
    }
}

impl UnicodeEncoding {
    /// Reads the name of an encoding: `utf8`, `utf-8`, `utf_8` or `8`, and
    /// likewise for 16 and 32.
    pub fn parse(s: &str) -> (r: Result<UnicodeEncoding, ParseError>)
        ensures
            r == (match unicode_encoding_of(s@) {
                Some(encoding) => Ok::<UnicodeEncoding, ParseError>(encoding),
                None => Err(ParseError::ValueValidation),
            }),
    {
        let v = chars_of(s);
        assert(v@.skip(0) =~= s@);
        if rest_is(&v, 0, "utf_8") || rest_is(&v, 0, "utf-8") || rest_is(&v, 0, "utf8") || rest_is(
            &v,
            0,
            "8",
        ) {
            Ok(UnicodeEncoding::Utf8)
        } else if rest_is(&v, 0, "utf_16") || rest_is(&v, 0, "utf-16") || rest_is(&v, 0, "utf16")
            || rest_is(&v, 0, "16") {
            Ok(UnicodeEncoding::Utf16)
        } else if rest_is(&v, 0, "utf_32") || rest_is(&v, 0, "utf-32") || rest_is(&v, 0, "utf32")
            || rest_is(&v, 0, "32") {
            Ok(UnicodeEncoding::Utf32)
        } else {
            Err(ParseError::ValueValidation)
        }
    }
}

impl std::str::FromStr for ByteUnit {
    type Err = ParseError;

    fn from_str(s: &str) -> (r: Result<ByteUnit, ParseError>)
        ensures r == named(byte_unit_of(s@)),
    { ByteUnit::parse(s) }
}

impl std::str::FromStr for ByteSize {
    type Err = ParseError;

    fn from_str(s: &str) -> (r: Result<ByteSize, ParseError>)
        ensures r == byte_size_of(s@),
    { ByteSize::parse(s) }
}

impl std::str::FromStr for Unit {
    type Err = ParseError;

    fn from_str(s: &str) -> (r: Result<Unit, ParseError>)
        ensures r == named(unit_of(s@)),
    { Unit::parse(s) }
}

impl std::str::FromStr for Size {
    type Err = ParseError;

    fn from_str(s: &str) -> (r: Result<Size, ParseError>)
        ensures r == size_of(s@),
    { Size::parse(s) }
}

impl std::str::FromStr for IntRange {
    type Err = ParseError;

    fn from_str(s: &str) -> (r: Result<IntRange, ParseError>)
        ensures r == int_range_of(s@),
    { IntRange::parse(s) }
}

impl std::str::FromStr for UuidVersion {
    type Err = ParseError;

    fn from_str(s: &str) -> (r: Result<UuidVersion, ParseError>)
        ensures r == named(uuid_version_of(s@)),
    { UuidVersion::parse(s) }
}

impl std::str::FromStr for UnicodeEncoding {
    type Err = ParseError;

    fn from_str(s: &str) -> (r: Result<UnicodeEncoding, ParseError>)
        ensures r == named(unicode_encoding_of(s@)),
    { UnicodeEncoding::parse(s) }
}

/// The result of reading a name: the value that the text names, or else
/// `ValueValidation`.
pub open spec fn named<T>(found: Option<T>) -> Result<T, ParseError> {
    match found {
        Some(value) => Ok(value),
        None => Err(ParseError::ValueValidation),
    }
}

} // verus!
