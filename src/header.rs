use vstd::prelude::*;

use crate::text::{chars_to_string, lines_view, split_chars, split_on, str_to_chars};

verus! {

/// The text that every font signature starts with.
pub const FIGLET_FONT_SIGNATURE: &'static str = "flf2";

/// A bound above every number a header field can hold.
pub const NUMBER_CAP: u64 = 10000000000;

/// Why a header token is not a number of the field's type.
#[derive(Debug, Clone, Copy, PartialEq, Eq, Structural)]
pub enum NumberError {
    Empty,
    InvalidDigit,
    PosOverflow,
    NegOverflow,
}

/// The numeric fields of a font header, in the order they stand in it.
#[derive(Debug, Clone, Copy, PartialEq, Eq, Structural)]
pub enum HeaderField {
    Height,
    Baseline,
    MaxLength,
    OldLayout,
    CommentLines,
    Direction,
    FullLayout,
    CodetagCount,
}

impl HeaderField {
    /// The smallest value the field holds (`old_layout` is signed).
    pub open spec fn min_value(self) -> int {
        match self {
            HeaderField::OldLayout => -128,
            _ => 0,
        }
    }

    /// The largest value the field holds.
    pub open spec fn max_value(self) -> int {
        match self {
            HeaderField::OldLayout => 127,
            _ => 65535,
        }
    }

    pub fn min(&self) -> (r: i64)
        ensures
            r == self.min_value(),
    {
        match self {
            HeaderField::OldLayout => -128,
            _ => 0,
        }
    }

    pub fn max(&self) -> (r: i64)
        ensures
            r == self.max_value(),
    {
        match self {
            HeaderField::OldLayout => 127,
            _ => 65535,
        }
    }

    /// The field's name as the format calls it.
    pub fn name(&self) -> (r: &'static str)
        ensures
            r@ == match self {
                HeaderField::Height => "height"@,
                HeaderField::Baseline => "baseline"@,
                HeaderField::MaxLength => "max_length"@,
                HeaderField::OldLayout => "old_layout"@,
                HeaderField::CommentLines => "comment_lines"@,
                HeaderField::Direction => "direction"@,
                HeaderField::FullLayout => "full_layout"@,
                HeaderField::CodetagCount => "codetag_count"@,
            },
    {
        match self {
            HeaderField::Height => "height",
            HeaderField::Baseline => "baseline",
            HeaderField::MaxLength => "max_length",
            HeaderField::OldLayout => "old_layout",
            HeaderField::CommentLines => "comment_lines",
            HeaderField::Direction => "direction",
            HeaderField::FullLayout => "full_layout",
            HeaderField::CodetagCount => "codetag_count",
        }
    }
}

/// Everything a font header line says, before any of it is interpreted.
#[derive(Debug)]
pub struct RawHeader {
    pub signature: String,
    pub hardblank: char,
    pub height: u16,
    pub baseline: u16,
    pub max_length: u16,
    pub old_layout: i8,
    pub comment_lines: u16,
    pub direction: Option<u16>,
    pub full_layout: Option<u16>,
    pub codetag_count: Option<u16>,
}

#[derive(Debug)]
pub enum HeaderParseError {
    WrongNumberOfSegments(usize),
    InvalidSignature(String),
    MissingHardblank,
    MissingSegment(usize, HeaderField),
    InvalidSegment(usize, HeaderField, NumberError),
}

/// The decimal value of a sequence of digits.
pub open spec fn digits_value(d: Seq<char>) -> int
    decreases d.len(),
{
    if d.len() == 0 {
        0
    } else {
        digits_value(d.drop_last()) * 10 + (d.last() as int - '0' as int)
    }
}

pub open spec fn is_digit(c: char) -> bool {
    '0' <= c <= '9'
}

pub open spec fn all_digits(d: Seq<char>) -> bool {
    forall|i: int| 0 <= i < d.len() ==> is_digit(#[trigger] d[i])
}

/// The first `k` characters of `d` read as digits from left to right: the
/// magnitude so far, or the first failure, which is a character that is not
/// a digit or a digit that takes the magnitude past `bound`.
pub open spec fn scan_digits(d: Seq<char>, k: int, bound: int, neg: bool) -> Result<int, NumberError>
    decreases k,
{
    if k <= 0 {
        Ok(0)
    } else {
        match scan_digits(d, k - 1, bound, neg) {
            Err(e) => Err(e),
            Ok(v) => if !is_digit(d[k - 1]) {
                Err(NumberError::InvalidDigit)
            } else {
                let nv = v * 10 + (d[k - 1] as int - '0' as int);
                if nv > bound {
                    if neg {
                        Err(NumberError::NegOverflow)
                    } else {
                        Err(NumberError::PosOverflow)
                    }
                } else {
                    Ok(nv)
                }
            },
        }
    }
}

/// A decimal integer with an optional sign, which must lie in `[min, max]`.
/// A `-` counts as a sign only where negative values are allowed. Digits
/// are read from left to right and the first one that is not a digit, or
/// that takes the value out of range, decides the error.
pub open spec fn parse_number(s: Seq<char>, min: int, max: int) -> Result<int, NumberError> {
    if s.len() == 0 {
        Err(NumberError::Empty)
    } else {
        let neg = s[0] == '-' && min < 0;
        let d = if s[0] == '+' || neg {
            s.drop_first()
        } else {
            s
        };
        if d.len() == 0 {
            Err(NumberError::InvalidDigit)
        } else {
            match scan_digits(
                d,
                d.len() as int,
                if neg {
                    -min
                } else {
                    max
                },
                neg,
            ) {
                Ok(v) => Ok(
                    if neg {
                        -v
                    } else {
                        v
                    },
                ),
                Err(e) => Err(e),
            }
        }
    }
}

proof fn lemma_digits_value_grows(d: Seq<char>, i: int)
    requires
        all_digits(d),
        0 <= i <= d.len(),
    ensures
        0 <= digits_value(d.take(i)) <= digits_value(d),
    decreases d.len(),
{
    if d.len() > 0 {
        if i < d.len() {
            assert(d.drop_last().take(i) == d.take(i));
            lemma_digits_value_grows(d.drop_last(), i);
        } else {
            assert(d.take(i) == d);
            lemma_digits_value_grows(d.drop_last(), i - 1);
            assert(d.drop_last().take(i - 1) == d.drop_last());
        }
    } else {
        assert(d.take(i) == d);
    }
}

proof fn lemma_scan_ok_range(d: Seq<char>, k: int, bound: int, neg: bool)
    requires
        bound >= 0,
    ensures
        scan_digits(d, k, bound, neg) matches Ok(v) ==> 0 <= v <= bound,
    decreases k,
{
    if k > 0 {
        lemma_scan_ok_range(d, k - 1, bound, neg);
    }
}

proof fn lemma_scan_err_stays(d: Seq<char>, j: int, k: int, bound: int, neg: bool)
    requires
        j <= k,
        scan_digits(d, j, bound, neg) is Err,
    ensures
        scan_digits(d, k, bound, neg) == scan_digits(d, j, bound, neg),
    decreases k - j,
{
    if j < k {
        lemma_scan_err_stays(d, j, k - 1, bound, neg);
    }
}

/// Digits whose value is within the bound read as that value.
proof fn lemma_scan_digits_value(d: Seq<char>, k: int, bound: int, neg: bool)
    requires
        all_digits(d),
        0 <= k <= d.len(),
        digits_value(d) <= bound,
    ensures
        scan_digits(d, k, bound, neg) == Ok::<int, NumberError>(digits_value(d.take(k))),
    decreases k,
{
    if k > 0 {
        lemma_scan_digits_value(d, k - 1, bound, neg);
        assert(d.take(k).drop_last() == d.take(k - 1));
        assert(d.take(k).last() == d[k - 1]);
        lemma_digits_value_grows(d, k);
    } else {
        assert(d.take(0) =~= Seq::<char>::empty());
    }
}

/// Parses a number as `parse_number` says.
pub fn parse_number_exec(s: &Vec<char>, min: i64, max: i64) -> (r: Result<i64, NumberError>)
    requires
        -(NUMBER_CAP as int) < min <= 0 <= max < NUMBER_CAP,
    ensures
        match r {
            Ok(v) => parse_number(s@, min as int, max as int) == Ok::<int, NumberError>(v as int),
            Err(e) => parse_number(s@, min as int, max as int) == Err::<int, NumberError>(e),
        },
        r matches Ok(v) ==> min <= v <= max,
{
    if s.len() == 0 {
        return Err(NumberError::Empty);
    }
    let neg = s[0] == '-' && min < 0;
    let start: usize = if s[0] == '+' || neg {
        1
    } else {
        0
    };
    let ghost d = if start == 1 {
        s@.drop_first()
    } else {
        s@
    };
    assert(d == s@.skip(start as int));
    if start >= s.len() {
        return Err(NumberError::InvalidDigit);
    }
    let bound: i64 = if neg {
        -min
    } else {
        max
    };
    let mut acc: i64 = 0;
    let mut i: usize = start;
    while i < s.len()
        invariant
            start <= i <= s.len(),
            d == s@.skip(start as int),
            d.len() == s@.len() - start,
            s@.len() > 0,
            neg == (s@[0] == '-' && min < 0),
            d == (if s@[0] == '+' || neg {
                s@.drop_first()
            } else {
                s@
            }),
            bound as int == (if neg {
                -(min as int)
            } else {
                max as int
            }),
            -(NUMBER_CAP as int) < min <= 0 <= max < NUMBER_CAP,
            0 <= bound < NUMBER_CAP,
            0 <= acc <= bound,
            scan_digits(d, i - start, bound as int, neg) == Ok::<int, NumberError>(acc as int),
        decreases s.len() - i,
    {
        let ghost k = i - start;
        assert(d[k] == s@[i as int]);
        let c = s[i];
        if !('0' <= c && c <= '9') {
            proof {
                lemma_scan_err_stays(d, k + 1, d.len() as int, bound as int, neg);
            }
            return Err(NumberError::InvalidDigit);
        }
        let next = acc * 10 + (c as u32 - '0' as u32) as i64;
        if next > bound {
            proof {
                lemma_scan_err_stays(d, k + 1, d.len() as int, bound as int, neg);
            }
            return if neg {
                Err(NumberError::NegOverflow)
            } else {
                Err(NumberError::PosOverflow)
            };
        }
        acc = next;
        i = i + 1;
    }
    if neg {
        Ok(-acc)
    } else {
        Ok(acc)
    }
}

/// The characters every font signature starts with.
pub open spec fn magic() -> Seq<char> {
    seq!['f', 'l', 'f', '2']
}

pub open spec fn has_magic(p: Seq<char>) -> bool {
    p.len() >= 4 && p.take(4) == magic()
}

/// The tokens of a header line: it is split at every single space.
pub open spec fn header_segments(line: Seq<char>) -> Seq<Seq<char>> {
    split_on(line, ' ')
}

/// The first token is the signature followed by the hardblank character.
pub open spec fn signature_ok(segs: Seq<Seq<char>>) -> bool {
    segs[0].len() > 0 && has_magic(segs[0].drop_last())
}

/// Which field the token at index `i` (from 1 to 8) holds.
pub open spec fn field_at(i: int) -> HeaderField {
    if i == 1 {
        HeaderField::Height
    } else if i == 2 {
        HeaderField::Baseline
    } else if i == 3 {
        HeaderField::MaxLength
    } else if i == 4 {
        HeaderField::OldLayout
    } else if i == 5 {
        HeaderField::CommentLines
    } else if i == 6 {
        HeaderField::Direction
    } else if i == 7 {
        HeaderField::FullLayout
    } else {
        HeaderField::CodetagCount
    }
}

/// The token at index `i` read as the number of its field.
pub open spec fn segment_value(segs: Seq<Seq<char>>, i: int) -> Result<int, NumberError> {
    parse_number(segs[i], field_at(i).min_value(), field_at(i).max_value())
}

/// Every token from index 1 up to (not including) `k` that is present is a
/// valid number of its field.
pub open spec fn segments_ok_below(segs: Seq<Seq<char>>, k: int) -> bool {
    forall|i: int| 1 <= i < k && i < segs.len() ==> (#[trigger] segment_value(segs, i)) is Ok
}

/// The value of an optional field: `None` where its token is absent.
pub open spec fn optional_value(segs: Seq<Seq<char>>, i: int) -> Option<int> {
    if i < segs.len() {
        Some(segment_value(segs, i)->Ok_0)
    } else {
        None
    }
}

pub open spec fn opt_int(o: Option<u16>) -> Option<int> {
    match o {
        Some(v) => Some(v as int),
        None => None,
    }
}

/// A header line parses exactly when it has at least six tokens, a valid
/// signature and every token from the second to the ninth, where present, is
/// a valid number of its field.
pub open spec fn header_valid(line: Seq<char>) -> bool {
    let segs = header_segments(line);
    segs.len() >= 6 && signature_ok(segs) && segments_ok_below(segs, 9)
}

/// The fields of `h` are those written in `line`.
pub open spec fn header_matches(h: RawHeader, line: Seq<char>) -> bool {
    let segs = header_segments(line);
    &&& h.signature@ == segs[0].drop_last()
    &&& h.hardblank == segs[0].last()
    &&& h.height as int == segment_value(segs, 1)->Ok_0
    &&& h.baseline as int == segment_value(segs, 2)->Ok_0
    &&& h.max_length as int == segment_value(segs, 3)->Ok_0
    &&& h.old_layout as int == segment_value(segs, 4)->Ok_0
    &&& h.comment_lines as int == segment_value(segs, 5)->Ok_0
    &&& opt_int(h.direction) == optional_value(segs, 6)
    &&& opt_int(h.full_layout) == optional_value(segs, 7)
    &&& opt_int(h.codetag_count) == optional_value(segs, 8)
}

/// The error a header line that does not parse gives: the first check that
/// fails decides, in the order of the tokens.
pub open spec fn header_error_matches(e: HeaderParseError, line: Seq<char>) -> bool {
    let segs = header_segments(line);
    if segs.len() < 6 {
        e == HeaderParseError::WrongNumberOfSegments(segs.len() as usize)
    } else if segs[0].len() == 0 {
        e is MissingHardblank
    } else if !has_magic(segs[0].drop_last()) {
        (e matches HeaderParseError::InvalidSignature(s) && s@ == segs[0].drop_last())
    } else {
        exists|i: int|
            1 <= i < 9 && i < segs.len() && segments_ok_below(segs, i) && (
            #[trigger] segment_value(segs, i)) is Err && e == HeaderParseError::InvalidSegment(
                i as usize,
                field_at(i),
                segment_value(segs, i)->Err_0,
            )
    }
}

impl RawHeader {
    /// Splits the first token into the signature and the hardblank character.
    pub fn read_signature(segment: &Vec<char>) -> (r: Result<(String, char), HeaderParseError>)
        ensures
            segment@.len() == 0 ==> r matches Err(HeaderParseError::MissingHardblank),
            segment@.len() > 0 && !has_magic(segment@.drop_last()) ==> (r matches Err(
                HeaderParseError::InvalidSignature(s),
            ) && s@ == segment@.drop_last()),
            segment@.len() > 0 && has_magic(segment@.drop_last()) ==> (r matches Ok(
                (sig, hb),
            ) && sig@ == segment@.drop_last() && hb == segment@.last()),
    {
        let n = segment.len();
        if n == 0 {
            return Err(HeaderParseError::MissingHardblank);
        }
        let mut prefix: Vec<char> = Vec::new();
        let mut i: usize = 0;
        while i < n - 1
            invariant
                n == segment.len(),
                n > 0,
                i <= n - 1,
                prefix@ == segment@.take(i as int),
            decreases n - 1 - i,
        {
            prefix.push(segment[i]);
            proof {
                assert(segment@.take(i as int + 1) == segment@.take(i as int).push(segment@[i as int]));
            }
            i = i + 1;
        }
        assert(prefix@ == segment@.drop_last());
        let signature = chars_to_string(&prefix);
        let ok = prefix.len() >= 4 && prefix[0] == 'f' && prefix[1] == 'l' && prefix[2] == 'f'
            && prefix[3] == '2';
        proof {
            if prefix.len() >= 4 {
                if ok {
                    assert(prefix@.take(4) =~= magic());
                } else {
                    assert(prefix@.take(4)[0] == prefix@[0]);
                    assert(prefix@.take(4)[1] == prefix@[1]);
                    assert(prefix@.take(4)[2] == prefix@[2]);
                    assert(prefix@.take(4)[3] == prefix@[3]);
                    assert(magic()[0] == 'f' && magic()[1] == 'l' && magic()[2] == 'f' && magic()[3] == '2');
                }
            }
        }
        if !ok {
            return Err(HeaderParseError::InvalidSignature(signature));
        }
        Ok((signature, segment[n - 1]))
    }

    /// Reads the number at `idx`; the token must be there.
    pub fn extract_required_segment(segments: &Vec<Vec<char>>, idx: usize, field: HeaderField) -> (r:
        Result<i64, HeaderParseError>)
        ensures
            idx >= segments.len() ==> r == Err::<i64, HeaderParseError>(
                HeaderParseError::MissingSegment(idx, field),
            ),
            idx < segments.len() ==> match r {
                Ok(v) => parse_number(segments@[idx as int]@, field.min_value(), field.max_value())
                    == Ok::<int, NumberError>(v as int),
                Err(e) => exists|ne: NumberError|
                    parse_number(segments@[idx as int]@, field.min_value(), field.max_value())
                        == Err::<int, NumberError>(ne) && e == HeaderParseError::InvalidSegment(
                        idx,
                        field,
                        ne,
                    ),
            },
            r matches Ok(v) ==> field.min_value() <= v <= field.max_value(),
    {
        if idx >= segments.len() {
            return Err(HeaderParseError::MissingSegment(idx, field));
        }
        match parse_number_exec(&segments[idx], field.min(), field.max()) {
            Ok(v) => Ok(v),
            Err(e) => Err(HeaderParseError::InvalidSegment(idx, field, e)),
        }
    }

    /// Reads the number at `idx`, or `None` where the token is absent.
    pub fn extract_optional_segment(segments: &Vec<Vec<char>>, idx: usize, field: HeaderField) -> (r:
        Result<Option<i64>, HeaderParseError>)
        ensures
            idx >= segments.len() ==> r == Ok::<Option<i64>, HeaderParseError>(None),
            idx < segments.len() ==> match r {
                Ok(Some(v)) => parse_number(
                    segments@[idx as int]@,
                    field.min_value(),
                    field.max_value(),
                ) == Ok::<int, NumberError>(v as int),
                Ok(None) => false,
                Err(e) => exists|ne: NumberError|
                    parse_number(segments@[idx as int]@, field.min_value(), field.max_value())
                        == Err::<int, NumberError>(ne) && e == HeaderParseError::InvalidSegment(
                        idx,
                        field,
                        ne,
                    ),
            },
            r matches Ok(Some(v)) ==> field.min_value() <= v <= field.max_value(),
    {
        if idx >= segments.len() {
            return Ok(None);
        }
        match parse_number_exec(&segments[idx], field.min(), field.max()) {
            Ok(v) => Ok(Some(v)),
            Err(e) => Err(HeaderParseError::InvalidSegment(idx, field, e)),
        }
    }

    /// Parses a header line given as characters.
    pub fn from_chars(line: &Vec<char>) -> (r: Result<RawHeader, HeaderParseError>)
        ensures
            r is Ok <==> header_valid(line@),
            r matches Ok(h) ==> header_matches(h, line@),
            r matches Err(e) ==> header_error_matches(e, line@),
    {
        let segments = split_chars(line, ' ');
        let ghost segs = header_segments(line@);
        assert(lines_view(segments@) == segs);
        assert(forall|i: int| 0 <= i < segs.len() ==> segments@[i]@ == #[trigger] segs[i]);
        if segments.len() < 6 {
            return Err(HeaderParseError::WrongNumberOfSegments(segments.len()));
        }
        let (signature, hardblank) = match Self::read_signature(&segments[0]) {
            Ok(p) => p,
            Err(e) => return Err(e),
        };
        let height = match Self::extract_required_segment(&segments, 1, HeaderField::Height) {
            Ok(v) => v,
            Err(e) => {
                assert(segments_ok_below(segs, 1));
                assert(segment_value(segs, 1) is Err);
                return Err(e);
            }
        };
        let baseline = match Self::extract_required_segment(&segments, 2, HeaderField::Baseline) {
            Ok(v) => v,
            Err(e) => {
                assert(segments_ok_below(segs, 2));
                assert(segment_value(segs, 2) is Err);
                return Err(e);
            }
        };
        let max_length = match Self::extract_required_segment(&segments, 3, HeaderField::MaxLength) {
            Ok(v) => v,
            Err(e) => {
                assert(segments_ok_below(segs, 3));
                assert(segment_value(segs, 3) is Err);
                return Err(e);
            }
        };
        let old_layout = match Self::extract_required_segment(&segments, 4, HeaderField::OldLayout) {
            Ok(v) => v,
            Err(e) => {
                assert(segments_ok_below(segs, 4));
                assert(segment_value(segs, 4) is Err);
                return Err(e);
            }
        };
        let comment_lines = match Self::extract_required_segment(
            &segments,
            5,
            HeaderField::CommentLines,
        ) {
            Ok(v) => v,
            Err(e) => {
                assert(segments_ok_below(segs, 5));
                assert(segment_value(segs, 5) is Err);
                return Err(e);
            }
        };
        let direction = match Self::extract_optional_segment(&segments, 6, HeaderField::Direction) {
            Ok(v) => v,
            Err(e) => {
                assert(segments_ok_below(segs, 6));
                assert(segment_value(segs, 6) is Err);
                return Err(e);
            }
        };
        let full_layout = match Self::extract_optional_segment(
            &segments,
            7,
            HeaderField::FullLayout,
        ) {
            Ok(v) => v,
            Err(e) => {
                assert(segments_ok_below(segs, 7));
                assert(segment_value(segs, 7) is Err);
                return Err(e);
            }
        };
        let codetag_count = match Self::extract_optional_segment(
            &segments,
            8,
            HeaderField::CodetagCount,
        ) {
            Ok(v) => v,
            Err(e) => {
                assert(segments_ok_below(segs, 8));
                assert(segment_value(segs, 8) is Err);
                return Err(e);
            }
        };
        assert(segments_ok_below(segs, 9));
        let h = RawHeader {
            signature,
            hardblank,
            height: height as u16,
            baseline: baseline as u16,
            max_length: max_length as u16,
            old_layout: old_layout as i8,
            comment_lines: comment_lines as u16,
            direction: match direction {
                Some(v) => Some(v as u16),
                None => None,
            },
            full_layout: match full_layout {
                Some(v) => Some(v as u16),
                None => None,
            },
            codetag_count: match codetag_count {
                Some(v) => Some(v as u16),
                None => None,
            },
        };
        Ok(h)
    }

    /// Parses a header line.
    pub fn parse_line(line: &str) -> (r: Result<RawHeader, HeaderParseError>)
        ensures
            r is Ok <==> header_valid(line@),
            r matches Ok(h) ==> header_matches(h, line@),
            r matches Err(e) ==> header_error_matches(e, line@),
    {
        let chars = str_to_chars(line);
        Self::from_chars(&chars)
    }
}

impl std::str::FromStr for RawHeader {
    type Err = HeaderParseError;

    fn from_str(s: &str) -> (r: Result<RawHeader, HeaderParseError>)
        ensures
            r is Ok <==> header_valid(s@),
            r matches Ok(h) ==> header_matches(h, s@),
            r matches Err(e) ==> header_error_matches(e, s@),
    {
        RawHeader::parse_line(s)
    }
}

} // verus!

verus! {

/// The suffix of font files in this library's own format.
pub const FONT_FILE_SUFFIX: &'static str = ".frf";

/// The magic number of that format: the characters `FRF0` packed into four
/// bytes, as `to_magic_number` packs them.
pub const FONT_FILE_MAGIC_NUMBER: u32 = 1179797040;

/// Packs four characters into a number, the first in the highest byte:
/// each character's code is shifted into place and the four are or-ed
/// together (wider codes overlap and lose their high bits). For characters
/// of at most eight bits this is the number whose bytes they are.
pub fn to_magic_number(chars: [char; 4]) -> (r: u32)
    ensures
        r == ((chars@[0] as u32) << 24u32) | ((chars@[1] as u32) << 16u32) | ((chars@[2] as u32)
            << 8u32) | (chars@[3] as u32),
        (forall|i: int| 0 <= i < 4 ==> (#[trigger] chars@[i]) as u32 <= 255) ==> r == (
        chars@[0] as u32) * 0x1000000 + (chars@[1] as u32) * 0x10000 + (chars@[2] as u32) * 0x100
            + chars@[3] as u32,
{
    let a = chars[0] as u32;
    let b = chars[1] as u32;
    let c = chars[2] as u32;
    let d = chars[3] as u32;
    let r = (a << 24u32) | (b << 16u32) | (c << 8u32) | d;
    if a <= 255 && b <= 255 && c <= 255 && d <= 255 {
        assert(r == a * 0x1000000 + b * 0x10000 + c * 0x100 + d) by (bit_vector)
            requires
                a <= 255 && b <= 255 && c <= 255 && d <= 255,
                r == (a << 24u32) | (b << 16u32) | (c << 8u32) | d,
        ;
    } else {
        assert(!(forall|i: int| 0 <= i < 4 ==> (#[trigger] chars@[i]) as u32 <= 255)) by {
            if a > 255 {
                assert(chars@[0] as u32 > 255);
            } else if b > 255 {
                assert(chars@[1] as u32 > 255);
            } else if c > 255 {
                assert(chars@[2] as u32 > 255);
            } else {
                assert(chars@[3] as u32 > 255);
            }
        }
    }
    r
}

} // verus!

verus! {

pub open spec fn digit_char(d: int) -> char {
    ('0' as int + d) as char
}

/// The decimal digits of `n`, without leading zeros.
pub open spec fn decimal(n: nat) -> Seq<char>
    decreases n,
{
    if n < 10 {
        seq![digit_char(n as int)]
    } else {
        decimal(n / 10).push(digit_char((n % 10) as int))
    }
}

/// How the format writes a number: its decimal digits, after a `-` where
/// it is negative.
pub open spec fn number_text(v: int) -> Seq<char> {
    if v < 0 {
        seq!['-'] + decimal((-v) as nat)
    } else {
        decimal(v as nat)
    }
}

/// A header line written from its fields: the signature and hardblank, then
/// every number, each after one space.
pub open spec fn header_text(sig: Seq<char>, hardblank: char, fields: Seq<int>) -> Seq<char>
    decreases fields.len(),
{
    if fields.len() == 0 {
        sig.push(hardblank)
    } else {
        header_text(sig, hardblank, fields.drop_last()) + seq![' '] + number_text(fields.last())
    }
}

proof fn lemma_decimal(n: nat)
    ensures
        decimal(n).len() > 0,
        all_digits(decimal(n)),
        digits_value(decimal(n)) == n,
        !decimal(n).contains(' '),
        decimal(n)[0] != '-' && decimal(n)[0] != '+',
    decreases n,
{
    assert(digit_char((n % 10) as int) as int == '0' as int + (n % 10) as int);
    if n >= 10 {
        lemma_decimal(n / 10);
        let d = decimal(n);
        assert(d.drop_last() == decimal(n / 10));
        vstd::arithmetic::div_mod::lemma_fundamental_div_mod(n as int, 10);
        assert(d.last() == digit_char((n % 10) as int));
        assert(digits_value(d) == digits_value(decimal(n / 10)) * 10 + (d.last() as int - '0' as int));
        assert(digits_value(d) == (n / 10) as int * 10 + (n % 10) as int);
        assert(d[0] == decimal(n / 10)[0]);
        assert forall|i: int| 0 <= i < d.len() implies is_digit(#[trigger] d[i]) by {
            if i < d.len() - 1 {
                assert(d[i] == decimal(n / 10)[i]);
            }
        }
        assert(!d.contains(' ')) by {
            if d.contains(' ') {
                let i = choose|i: int| 0 <= i < d.len() && d[i] == ' ';
                assert(is_digit(d[i]));
            }
        }
    } else {
        let d = decimal(n);
        assert(d.drop_last() =~= Seq::<char>::empty());
        assert(digits_value(Seq::<char>::empty()) == 0);
        assert(digits_value(d.drop_last()) == 0);
        assert(n % 10 == n);
        assert(d.last() == digit_char(n as int));
        assert(digits_value(d) == 0 * 10 + (d.last() as int - '0' as int));
        assert(!d.contains(' ')) by {
            if d.contains(' ') {
                let i = choose|i: int| 0 <= i < d.len() && d[i] == ' ';
                assert(i == 0);
            }
        }
    }
}

proof fn lemma_number_text(v: int, min: int, max: int)
    requires
        min <= v <= max,
        min <= 0,
    ensures
        parse_number(number_text(v), min, max) == Ok::<int, NumberError>(v),
        !number_text(v).contains(' '),
{
    if v < 0 {
        lemma_decimal((-v) as nat);
        let t = number_text(v);
        assert(t.drop_first() =~= decimal((-v) as nat));
        let d = decimal((-v) as nat);
        lemma_scan_digits_value(d, d.len() as int, -min, true);
        assert(d.take(d.len() as int) == d);
        assert(!t.contains(' ')) by {
            if t.contains(' ') {
                let i = choose|i: int| 0 <= i < t.len() && t[i] == ' ';
                assert(i > 0);
                assert(t.drop_first()[i - 1] == ' ');
            }
        }
    } else {
        lemma_decimal(v as nat);
        let d = decimal(v as nat);
        lemma_scan_digits_value(d, d.len() as int, max, false);
        assert(d.take(d.len() as int) == d);
    }
}

proof fn lemma_split_no_sep(s: Seq<char>, sep: char)
    requires
        !s.contains(sep),
    ensures
        split_on(s, sep) == seq![s],
    decreases s.len(),
{
    if s.len() > 0 {
        assert(!s.drop_last().contains(sep)) by {
            if s.drop_last().contains(sep) {
                let i = choose|i: int| 0 <= i < s.drop_last().len() && s.drop_last()[i] == sep;
                assert(s[i] == sep);
            }
        }
        lemma_split_no_sep(s.drop_last(), sep);
        assert(s.last() != sep) by {
            assert(s[s.len() - 1] == s.last());
        }
        assert(s.drop_last().push(s.last()) =~= s);
        assert(seq![s.drop_last()].update(0, s.drop_last().push(s.last())) =~= seq![s]);
    } else {
        assert(s =~= Seq::<char>::empty());
    }
}

proof fn lemma_split_concat(a: Seq<char>, b: Seq<char>, sep: char)
    ensures
        split_on(a + seq![sep] + b, sep) == split_on(a, sep) + split_on(b, sep),
    decreases b.len(),
{
    crate::text::lemma_split_on_nonempty(a, sep);
    if b.len() == 0 {
        assert(a + seq![sep] + b =~= (a + seq![sep]));
        assert((a + seq![sep]).drop_last() =~= a);
        assert(split_on(a, sep).push(Seq::<char>::empty()) =~= split_on(a, sep) + seq![
            Seq::<char>::empty(),
        ]);
    } else {
        let s = a + seq![sep] + b;
        assert(s.drop_last() =~= a + seq![sep] + b.drop_last());
        lemma_split_concat(a, b.drop_last(), sep);
        crate::text::lemma_split_on_nonempty(b.drop_last(), sep);
        let x = split_on(a, sep);
        let y = split_on(b.drop_last(), sep);
        assert(s.last() == b.last());
        if b.last() == sep {
            assert((x + y).push(Seq::<char>::empty()) =~= x + y.push(Seq::<char>::empty()));
        } else {
            let xy = x + y;
            assert(xy.update(xy.len() - 1, xy.last().push(b.last())) =~= x + y.update(
                y.len() - 1,
                y.last().push(b.last()),
            ));
        }
    }
}

proof fn lemma_header_text_segments(sig: Seq<char>, hardblank: char, fields: Seq<int>)
    requires
        !sig.contains(' '),
        hardblank != ' ',
        forall|i: int|
            0 <= i < fields.len() ==> !(#[trigger] number_text(fields[i])).contains(' '),
    ensures
        header_segments(header_text(sig, hardblank, fields)) == seq![sig.push(hardblank)] + fields.map_values(
            |v: int| number_text(v),
        ),
    decreases fields.len(),
{
    if fields.len() == 0 {
        assert(!sig.push(hardblank).contains(' ')) by {
            if sig.push(hardblank).contains(' ') {
                let i = choose|i: int| 0 <= i < sig.push(hardblank).len() && sig.push(hardblank)[i] == ' ';
                if i < sig.len() {
                    assert(sig[i] == ' ');
                }
            }
        }
        lemma_split_no_sep(sig.push(hardblank), ' ');
        assert(fields.map_values(|v: int| number_text(v)) =~= Seq::<Seq<char>>::empty());
        assert(seq![sig.push(hardblank)] + Seq::<Seq<char>>::empty() =~= seq![sig.push(hardblank)]);
    } else {
        let prev = fields.drop_last();
        assert forall|i: int| 0 <= i < prev.len() implies !(#[trigger] number_text(prev[i])).contains(' ') by {
            assert(prev[i] == fields[i]);
        }
        lemma_header_text_segments(sig, hardblank, prev);
        lemma_split_concat(header_text(sig, hardblank, prev), number_text(fields.last()), ' ');
        assert(!number_text(fields[fields.len() - 1]).contains(' '));
        lemma_split_no_sep(number_text(fields.last()), ' ');
        assert(fields.map_values(|v: int| number_text(v)) =~= prev.map_values(|v: int| number_text(v)).push(
            number_text(fields.last()),
        ));
        assert(seq![sig.push(hardblank)] + fields.map_values(|v: int| number_text(v)) =~= (seq![
            sig.push(hardblank),
        ] + prev.map_values(|v: int| number_text(v))) + seq![number_text(fields.last())]);
    }
}

/// A header written in the format's grammar (a signature that starts with
/// the magic characters and holds no space, a hardblank character other
/// than space, five to eight numbers each within its field's range) is a
/// valid header line: its first token is the signature and hardblank, and
/// every later token reads as the number it was written from.
pub proof fn lemma_header_text_valid(sig: Seq<char>, hardblank: char, fields: Seq<int>)
    requires
        has_magic(sig),
        !sig.contains(' '),
        hardblank != ' ',
        5 <= fields.len() <= 8,
        forall|i: int|
            0 <= i < fields.len() ==> field_at(i + 1).min_value() <= #[trigger] fields[i]
                <= field_at(i + 1).max_value(),
    ensures
        header_valid(header_text(sig, hardblank, fields)),
        header_segments(header_text(sig, hardblank, fields)).len() == fields.len() + 1,
        header_segments(header_text(sig, hardblank, fields))[0] == sig.push(hardblank),
        forall|i: int|
            1 <= i <= fields.len() ==> #[trigger] segment_value(
                header_segments(header_text(sig, hardblank, fields)),
                i,
            ) == Ok::<int, NumberError>(fields[i - 1]),
{
    assert forall|i: int| 0 <= i < fields.len() implies !(#[trigger] number_text(fields[i])).contains(' ')
        && parse_number(number_text(fields[i]), field_at(i + 1).min_value(), field_at(i + 1).max_value())
        == Ok::<int, NumberError>(fields[i]) by {
        lemma_number_text(fields[i], field_at(i + 1).min_value(), field_at(i + 1).max_value());
    }
    lemma_header_text_segments(sig, hardblank, fields);
    let line = header_text(sig, hardblank, fields);
    let segs = header_segments(line);
    assert(segs.len() == fields.len() + 1);
    assert(segs[0] == sig.push(hardblank));
    assert(segs[0].drop_last() =~= sig);
    assert forall|i: int| 1 <= i < segs.len() implies #[trigger] segment_value(segs, i) == Ok::<
        int,
        NumberError,
    >(fields[i - 1]) by {
        assert(segs[i] == number_text(fields[i - 1]));
    }
    assert(segments_ok_below(segs, 9));
    assert(segment_value(segs, 1) == Ok::<int, NumberError>(fields[0]));
    assert(segment_value(segs, 2) == Ok::<int, NumberError>(fields[1]));
    assert(segment_value(segs, 3) == Ok::<int, NumberError>(fields[2]));
    assert(segment_value(segs, 4) == Ok::<int, NumberError>(fields[3]));
    assert(segment_value(segs, 5) == Ok::<int, NumberError>(fields[4]));
    if fields.len() > 5 {
        assert(segment_value(segs, 6) == Ok::<int, NumberError>(fields[5]));
    }
    if fields.len() > 6 {
        assert(segment_value(segs, 7) == Ok::<int, NumberError>(fields[6]));
    }
    if fields.len() > 7 {
        assert(segment_value(segs, 8) == Ok::<int, NumberError>(fields[7]));
    }
}

/// A header written in the format's grammar parses (see
/// `lemma_header_text_valid`), and every field of the header that parsing
/// gives is the one it was written from.
pub proof fn lemma_header_round_trip(sig: Seq<char>, hardblank: char, fields: Seq<int>, h: RawHeader)
    requires
        has_magic(sig),
        !sig.contains(' '),
        hardblank != ' ',
        5 <= fields.len() <= 8,
        forall|i: int|
            0 <= i < fields.len() ==> field_at(i + 1).min_value() <= #[trigger] fields[i]
                <= field_at(i + 1).max_value(),
        header_matches(h, header_text(sig, hardblank, fields)),
    ensures
        header_valid(header_text(sig, hardblank, fields)),
        h.signature@ == sig,
        h.hardblank == hardblank,
        h.height == fields[0],
        h.baseline == fields[1],
        h.max_length == fields[2],
        h.old_layout == fields[3],
        h.comment_lines == fields[4],
        opt_int(h.direction) == if fields.len() > 5 {
            Some(fields[5])
        } else {
            None
        },
        opt_int(h.full_layout) == if fields.len() > 6 {
            Some(fields[6])
        } else {
            None
        },
        opt_int(h.codetag_count) == if fields.len() > 7 {
            Some(fields[7])
        } else {
            None
        },
{
    lemma_header_text_valid(sig, hardblank, fields);
    let segs = header_segments(header_text(sig, hardblank, fields));
    assert(segs[0].drop_last() =~= sig);
    assert(segment_value(segs, 1) == Ok::<int, NumberError>(fields[0]));
    assert(segment_value(segs, 2) == Ok::<int, NumberError>(fields[1]));
    assert(segment_value(segs, 3) == Ok::<int, NumberError>(fields[2]));
    assert(segment_value(segs, 4) == Ok::<int, NumberError>(fields[3]));
    assert(segment_value(segs, 5) == Ok::<int, NumberError>(fields[4]));
    if fields.len() > 5 {
        assert(segment_value(segs, 6) == Ok::<int, NumberError>(fields[5]));
    }
    if fields.len() > 6 {
        assert(segment_value(segs, 7) == Ok::<int, NumberError>(fields[6]));
    }
    if fields.len() > 7 {
        assert(segment_value(segs, 8) == Ok::<int, NumberError>(fields[7]));
    }
}

} // verus!
