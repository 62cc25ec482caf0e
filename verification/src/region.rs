//! Region resolution: parsing crop-rectangle strings, building a rectangle
//! from two chosen corners, resolving the capture region from the selection
//! precedence, and cutting a region out of a captured raster.

use vstd::prelude::*;

use crate::raster::{Raster, RasterView};
use crate::ScreenCapture;

verus! {

/// Field separators accepted in a rectangle string.
pub open spec fn spec_is_sep(c: char) -> bool {
    c == ',' || c == ':' || c == ' '
}

/// Whitespace stripped from both ends of a field before parsing: the
/// Unicode white-space code points, as `str::trim` removes them.
pub open spec fn spec_is_space(c: char) -> bool {
    ||| c == '\u{0009}'
    ||| c == '\u{000A}'
    ||| c == '\u{000B}'
    ||| c == '\u{000C}'
    ||| c == '\u{000D}'
    ||| c == ' '
    ||| c == '\u{0085}'
    ||| c == '\u{00A0}'
    ||| c == '\u{1680}'
    ||| ('\u{2000}' <= c && c <= '\u{200A}')
    ||| c == '\u{2028}'
    ||| c == '\u{2029}'
    ||| c == '\u{202F}'
    ||| c == '\u{205F}'
    ||| c == '\u{3000}'
}

/// Whether trimming removes this character.
fn is_space_char(c: char) -> (r: bool)
    ensures
        r == spec_is_space(c),
{
    c == '\u{0009}' || c == '\u{000A}' || c == '\u{000B}' || c == '\u{000C}' || c == '\u{000D}'
        || c == ' ' || c == '\u{0085}' || c == '\u{00A0}' || c == '\u{1680}' || ('\u{2000}' <= c
        && c <= '\u{200A}') || c == '\u{2028}' || c == '\u{2029}' || c == '\u{202F}' || c
        == '\u{205F}' || c == '\u{3000}'
}

/// The field with its leading whitespace removed.
pub open spec fn trim_front(s: Seq<char>) -> Seq<char>
    decreases s.len(),
{
    if s.len() > 0 && spec_is_space(s[0]) {
        trim_front(s.drop_first())
    } else {
        s
    }
}

/// The field with its trailing whitespace removed.
pub open spec fn trim_back(s: Seq<char>) -> Seq<char>
    decreases s.len(),
{
    if s.len() > 0 && spec_is_space(s.last()) {
        trim_back(s.drop_last())
    } else {
        s
    }
}

/// The field with whitespace removed from both ends.
pub open spec fn trimmed(s: Seq<char>) -> Seq<char> {
    trim_back(trim_front(s))
}

pub open spec fn spec_is_digit(c: char) -> bool {
    '0' <= c && c <= '9'
}

/// A non-empty run of decimal digits.
pub open spec fn all_digits(s: Seq<char>) -> bool {
    s.len() > 0 && forall|i: int| 0 <= i < s.len() ==> spec_is_digit(#[trigger] s[i])
}

/// Numeric value of a digit run.
pub open spec fn digits_val(s: Seq<char>) -> int
    decreases s.len(),
{
    if s.len() == 0 {
        0
    } else {
        digits_val(s.drop_last()) * 10 + (s.last() as u32 - '0' as u32)
    }
}

/// The trimmed field starts with a minus sign.
pub open spec fn field_negative(t: Seq<char>) -> bool {
    t.len() > 0 && t[0] == '-'
}

/// The trimmed field with its single leading sign removed, when one stands.
pub open spec fn field_digits(t: Seq<char>) -> Seq<char> {
    if t.len() > 0 && (t[0] == '-' || t[0] == '+') {
        t.drop_first()
    } else {
        t
    }
}

/// Integer parsing as a rectangle field accepts it: optional whitespace
/// around an optional single sign followed by decimal digits, and the value
/// within the 32-bit signed range; anything else is no field.
pub open spec fn parse_i32_spec(s: Seq<char>) -> Option<i32> {
    let t = trimmed(s);
    let neg = field_negative(t);
    let d = field_digits(t);
    if !all_digits(d) {
        None
    } else if neg {
        if digits_val(d) <= 0x8000_0000 {
            Some((-digits_val(d)) as i32)
        } else {
            None
        }
    } else {
        if digits_val(d) <= 0x7fff_ffff {
            Some(digits_val(d) as i32)
        } else {
            None
        }
    }
}

/// Append the field's value when it parses; drop the field when it does not.
pub open spec fn push_parsed(vs: Seq<i32>, piece: Seq<char>) -> Seq<i32> {
    match parse_i32_spec(piece) {
        Some(v) => vs.push(v),
        None => vs,
    }
}

/// State after reading a prefix of the string left to right: the values of
/// the fields a separator has closed, in order, and the characters of the
/// field still open.
pub open spec fn scan_fields(s: Seq<char>) -> (Seq<i32>, Seq<char>)
    decreases s.len(),
{
    if s.len() == 0 {
        (Seq::empty(), Seq::empty())
    } else {
        let prev = scan_fields(s.drop_last());
        if spec_is_sep(s.last()) {
            (push_parsed(prev.0, prev.1), Seq::empty())
        } else {
            (prev.0, prev.1.push(s.last()))
        }
    }
}

/// All numeric fields of the string, in order of appearance.
pub open spec fn parsed_fields(s: Seq<char>) -> Seq<i32> {
    let end = scan_fields(s);
    push_parsed(end.0, end.1)
}

/// What rectangle-string parsing returns: the rectangle when the string
/// holds exactly four numeric fields and both size fields are positive,
/// nothing otherwise.
pub open spec fn parse_crop_region_spec(s: Seq<char>) -> Option<(i32, i32, i32, i32)> {
    let v = parsed_fields(s);
    if v.len() == 4 && v[2] > 0 && v[3] > 0 {
        Some((v[0], v[1], v[2], v[3]))
    } else {
        None
    }
}

/// The rectangle is valid — both sizes positive — and lies wholly inside
/// the raster. A rectangle partially or wholly outside the bounds, or with
/// a non-positive field, is not used: the consumer falls back to "no crop".
pub open spec fn crop_fits(img: RasterView, rect: (i32, i32, i32, i32)) -> bool {
    &&& rect.0 >= 0
    &&& rect.1 >= 0
    &&& rect.2 > 0
    &&& rect.3 > 0
    &&& rect.0 + rect.2 <= img.width
    &&& rect.1 + rect.3 <= img.height
}

/// The rectangle spanned by two chosen corner points: position at the
/// componentwise minimum, size the absolute differences. No rectangle when
/// either difference is zero (the corners share a row or column) or too
/// large for the field type.
pub open spec fn corners_region_spec(x1: int, y1: int, x2: int, y2: int) -> Option<
    (i32, i32, i32, i32),
> {
    let x = if x1 < x2 {
        x1
    } else {
        x2
    };
    let y = if y1 < y2 {
        y1
    } else {
        y2
    };
    let w = if x2 >= x1 {
        x2 - x1
    } else {
        x1 - x2
    };
    let h = if y2 >= y1 {
        y2 - y1
    } else {
        y1 - y2
    };
    if 0 < w <= 0x7fff_ffff && 0 < h <= 0x7fff_ffff {
        Some((x as i32, y as i32, w as i32, h as i32))
    } else {
        None
    }
}

/// The capture region under the selection precedence: an explicit rectangle
/// string wins (degrading to full capture when malformed), then the focused
/// window's bounds when asked for and known; otherwise everything is
/// captured.
pub open spec fn resolve_region_spec(
    crop: Option<Seq<char>>,
    window_only: bool,
    window_bounds: Option<(i32, i32, i32, i32)>,
) -> Option<(i32, i32, i32, i32)> {
    match crop {
        Some(s) => parse_crop_region_spec(s),
        None => if window_only {
            window_bounds
        } else {
            None
        },
    }
}

/// Leading whitespace determines `trim_front`: it cuts exactly at the first
/// non-space character.
proof fn lemma_trim_front_is_subrange(s: Seq<char>, k: int)
    requires
        0 <= k <= s.len(),
        forall|j: int| 0 <= j < k ==> spec_is_space(#[trigger] s[j]),
        k == s.len() || !spec_is_space(s[k]),
    ensures
        trim_front(s) == s.subrange(k, s.len() as int),
    decreases k,
{
    if k == 0 {
        assert(s.subrange(0, s.len() as int) =~= s);
    } else {
        lemma_trim_front_is_subrange(s.drop_first(), k - 1);
        assert(s.drop_first().subrange(k - 1, s.drop_first().len() as int) =~= s.subrange(
            k,
            s.len() as int,
        ));
    }
}

/// Trailing whitespace determines `trim_back`: it cuts exactly after the
/// last non-space character.
proof fn lemma_trim_back_is_subrange(s: Seq<char>, m: int)
    requires
        0 <= m <= s.len(),
        forall|j: int| m <= j < s.len() ==> spec_is_space(#[trigger] s[j]),
        m == 0 || !spec_is_space(s[m - 1]),
    ensures
        trim_back(s) == s.subrange(0, m),
    decreases s.len(),
{
    if m == s.len() {
        if s.len() == 0 {
            assert(s.subrange(0, 0) =~= s);
        } else {
            assert(s.subrange(0, m) =~= s);
        }
    } else {
        lemma_trim_back_is_subrange(s.drop_last(), m);
        assert(s.drop_last().subrange(0, m) =~= s.subrange(0, m));
    }
}

/// The value of a digit run is never negative.
proof fn lemma_digits_val_nonneg(s: Seq<char>)
    requires
        forall|i: int| 0 <= i < s.len() ==> spec_is_digit(#[trigger] s[i]),
    ensures
        digits_val(s) >= 0,
    decreases s.len(),
{
    if s.len() > 0 {
        lemma_digits_val_nonneg(s.drop_last());
    }
}

/// Appending digits never shrinks the value: any prefix is a lower bound.
proof fn lemma_digits_val_prefix_le(s: Seq<char>, m: int)
    requires
        0 <= m <= s.len(),
        forall|i: int| 0 <= i < s.len() ==> spec_is_digit(#[trigger] s[i]),
    ensures
        digits_val(s.subrange(0, m)) <= digits_val(s),
    decreases s.len(),
{
    lemma_digits_val_nonneg(s);
    if m == s.len() {
        assert(s.subrange(0, m) =~= s);
    } else {
        lemma_digits_val_prefix_le(s.drop_last(), m);
        assert(s.drop_last().subrange(0, m) =~= s.subrange(0, m));
        lemma_digits_val_nonneg(s.drop_last());
    }
}

/// Parse one gathered field: whitespace-trimmed, one optional sign, decimal
/// digits, and the value within the 32-bit signed range.
fn parse_field(cur: &Vec<char>) -> (r: Option<i32>)
    ensures
        r == parse_i32_spec(cur@),
{
    let ghost s = cur@;
    let n = cur.len();
    let mut start: usize = 0;
    while start < n && is_space_char(cur[start])
        invariant
            s == cur@,
            n == cur@.len(),
            0 <= start <= n,
            forall|j: int| 0 <= j < start ==> spec_is_space(#[trigger] s[j]),
        decreases n - start,
    {
        start = start + 1;
    }
    let mut end: usize = n;
    while end > start && is_space_char(cur[end - 1])
        invariant
            s == cur@,
            n == cur@.len(),
            0 <= start <= end <= n,
            forall|j: int| 0 <= j < start ==> spec_is_space(#[trigger] s[j]),
            start == n || !spec_is_space(s[start as int]),
            forall|j: int| end <= j < n ==> spec_is_space(#[trigger] s[j]),
        decreases end,
    {
        end = end - 1;
    }
    proof {
        lemma_trim_front_is_subrange(s, start as int);
        lemma_trim_back_is_subrange(
            s.subrange(start as int, n as int),
            end as int - start as int,
        );
        assert(s.subrange(start as int, n as int).subrange(0, end as int - start as int)
            =~= s.subrange(start as int, end as int));
        assert(trimmed(s) == s.subrange(start as int, end as int));
    }
    let ghost t = trimmed(s);

    let mut idx = start;
    let mut neg = false;
    if idx < end && (cur[idx] == '-' || cur[idx] == '+') {
        neg = cur[idx] == '-';
        idx = idx + 1;
    }
    let ghost d = s.subrange(idx as int, end as int);
    proof {
        if idx > start {
            assert(t.drop_first() =~= d);
        } else {
            assert(t =~= d);
        }
        assert(d == field_digits(t));
        assert(neg == field_negative(t));
    }
    if idx == end {
        // No digits at all: an empty field, a lone sign, or only whitespace.
        return None;
    }
    let mut acc: u64 = 0;
    let mut j = idx;
    while j < end
        invariant
            s == cur@,
            n == cur@.len(),
            0 <= idx <= j <= end <= n,
            t == trimmed(s),
            d == s.subrange(idx as int, end as int),
            d == field_digits(t),
            neg == field_negative(t),
            d.len() > 0,
            forall|k: int| idx <= k < j ==> spec_is_digit(#[trigger] s[k]),
            acc as int == digits_val(s.subrange(idx as int, j as int)),
            acc <= 0x8000_0000,
        decreases end - j,
    {
        let c = cur[j];
        if !('0' <= c && c <= '9') {
            proof {
                assert(!spec_is_digit(d[j - idx]));
                assert(!all_digits(d));
            }
            return None;
        }
        proof {
            assert(s.subrange(idx as int, j as int + 1).drop_last() =~= s.subrange(
                idx as int,
                j as int,
            ));
            assert(s.subrange(idx as int, j as int + 1).last() == s[j as int]);
        }
        acc = acc * 10 + ((c as u32) - ('0' as u32)) as u64;
        if acc > 0x8000_0000 {
            // The value already exceeds the signed 32-bit range and further
            // digits can only grow it.
            proof {
                if all_digits(d) {
                    assert(s.subrange(idx as int, j as int + 1) =~= d.subrange(
                        0,
                        j as int + 1 - idx,
                    ));
                    lemma_digits_val_prefix_le(d, j as int + 1 - idx);
                }
            }
            return None;
        }
        j = j + 1;
    }
    proof {
        assert(s.subrange(idx as int, end as int) =~= d);
        assert(all_digits(d));
    }
    if neg {
        Some((-(acc as i64)) as i32)
    } else {
        if acc > 0x7fff_ffff {
            return None;
        }
        Some(acc as i32)
    }
}

/// Parse a rectangle string: comma, colon or space separated fields, of
/// which exactly four must be integers, the third and fourth positive.
pub fn parse_crop_region(crop_str: &str) -> (r: Option<(i32, i32, i32, i32)>)
    ensures
        r == parse_crop_region_spec(crop_str@),
{
    let ghost s = crop_str@;
    let n = crop_str.unicode_len();
    let mut vals: Vec<i32> = Vec::new();
    let mut cur: Vec<char> = Vec::new();
    let mut i: usize = 0;
    while i < n
        invariant
            s == crop_str@,
            n == s.len(),
            0 <= i <= n,
            scan_fields(s.subrange(0, i as int)) == (vals@, cur@),
        decreases n - i,
    {
        let c = crop_str.get_char(i);
        proof {
            assert(s.subrange(0, i as int + 1).drop_last() =~= s.subrange(0, i as int));
            assert(s.subrange(0, i as int + 1).last() == s[i as int]);
        }
        if c == ',' || c == ':' || c == ' ' {
            let parsed = parse_field(&cur);
            match parsed {
                Some(v) => vals.push(v),
                None => {},
            }
            cur.clear();
        } else {
            cur.push(c);
        }
        i = i + 1;
    }
    proof {
        assert(s.subrange(0, n as int) =~= s);
    }
    let last = parse_field(&cur);
    match last {
        Some(v) => vals.push(v),
        None => {},
    }
    if vals.len() == 4 {
        let v2 = vals[2];
        let v3 = vals[3];
        if v2 > 0 && v3 > 0 {
            return Some((vals[0], vals[1], v2, v3));
        }
    }
    None
}

/// Build the rectangle spanned by two chosen corner points, as the
/// interactive selection does: position at the componentwise minimum, size
/// the absolute differences, rejected when either size is zero.
pub fn region_from_corners(x1: i32, y1: i32, x2: i32, y2: i32) -> (r: Option<(i32, i32, i32, i32)>)
    ensures
        r == corners_region_spec(x1 as int, y1 as int, x2 as int, y2 as int),
{
    let x = if x1 < x2 {
        x1
    } else {
        x2
    };
    let y = if y1 < y2 {
        y1
    } else {
        y2
    };
    let w: i64 = if x2 >= x1 {
        (x2 as i64) - (x1 as i64)
    } else {
        (x1 as i64) - (x2 as i64)
    };
    let h: i64 = if y2 >= y1 {
        (y2 as i64) - (y1 as i64)
    } else {
        (y1 as i64) - (y2 as i64)
    };
    if 0 < w && w <= 0x7fff_ffff && 0 < h && h <= 0x7fff_ffff {
        Some((x, y, w as i32, h as i32))
    } else {
        None
    }
}

impl ScreenCapture {
    /// Parse a rectangle string: comma, colon or space separated fields, of
    /// which exactly four must be integers, the third and fourth positive.
    pub fn parse_crop_region(crop_str: &str) -> (r: Option<(i32, i32, i32, i32)>)
        ensures
            r == parse_crop_region_spec(crop_str@),
    {
        parse_crop_region(crop_str)
    }

    /// Resolve the capture region from the selection precedence: an explicit
    /// rectangle string first (a malformed one degrades to full capture),
    /// then the focused window's bounds when `window_only` is set and the
    /// window collaborator answered, otherwise full capture.
    pub fn resolve_region(
        &self,
        crop: Option<&str>,
        window_only: bool,
        window_bounds: Option<(i32, i32, i32, i32)>,
    ) -> (r: Option<(i32, i32, i32, i32)>)
        ensures
            r == resolve_region_spec(
                match crop {
                    Some(c) => Some(c@),
                    None => None,
                },
                window_only,
                window_bounds,
            ),
    {
        match crop {
            Some(c) => parse_crop_region(c),
            None => {
                if window_only {
                    window_bounds
                } else {
                    None
                }
            },
        }
    }

    /// Cut the given region out of a captured raster. When no region is
    /// given, the rectangle has a non-positive field, or it does not lie
    /// wholly inside the raster, the raster is returned unchanged — an
    /// invalid or out-of-bounds region is degraded, never an error.
    pub fn crop_to_region(&self, img: &Raster, region: Option<(i32, i32, i32, i32)>) -> (r: Raster)
        requires
            img@.wf(),
        ensures
            match region {
                Some(rect) => if crop_fits(img@, rect) {
                    &&& r@.wf()
                    &&& r@.width == rect.2 as nat
                    &&& r@.height == rect.3 as nat
                    &&& forall|x: int, y: int|
                        0 <= x < r@.width && 0 <= y < r@.height ==> r@.pix(x, y) == img@.pix(
                            rect.0 + x,
                            rect.1 + y,
                        )
                } else {
                    r@ == img@
                },
                None => r@ == img@,
            },
    {
        let rect = match region {
            Some(rect) => rect,
            None => {
                return img.dup();
            },
        };
        if rect.0 < 0 || rect.1 < 0 || rect.2 <= 0 || rect.3 <= 0 {
            return img.dup();
        }
        let cx: u32 = rect.0 as u32;
        let cy: u32 = rect.1 as u32;
        let cw: u32 = rect.2 as u32;
        let ch: u32 = rect.3 as u32;
        let w = img.width();
        let h = img.height();
        if !(cx as u64 + cw as u64 <= w as u64 && cy as u64 + ch as u64 <= h as u64) {
            return img.dup();
        }
        proof {
            assert(cw as int * ch as int * 4 <= w as int * h as int * 4) by (nonlinear_arith)
                requires
                    0 <= cw as int <= w as int,
                    0 <= ch as int <= h as int,
            ;
            assert(img@.data.len() == w as int * h as int * 4);
        }
        let img_len = img.bytes().len();
        let mut out = Raster::new(cw, ch);
        let mut y: u32 = 0;
        while y < ch
            invariant
                img@.wf(),
                w as nat == img@.width,
                h as nat == img@.height,
                cx as int + cw as int <= w as int,
                cy as int + ch as int <= h as int,
                0 <= y <= ch,
                out@.wf(),
                out@.width == cw as nat,
                out@.height == ch as nat,
                forall|x2: int, y2: int|
                    0 <= x2 < cw && 0 <= y2 < y ==> out@.pix(x2, y2) == img@.pix(
                        cx as int + x2,
                        cy as int + y2,
                    ),
            decreases ch - y,
        {
            let mut x: u32 = 0;
            while x < cw
                invariant
                    img@.wf(),
                    w as nat == img@.width,
                    h as nat == img@.height,
                    cx as int + cw as int <= w as int,
                    cy as int + ch as int <= h as int,
                    0 <= y < ch,
                    0 <= x <= cw,
                    out@.wf(),
                    out@.width == cw as nat,
                    out@.height == ch as nat,
                    forall|x2: int, y2: int|
                        0 <= x2 < cw && 0 <= y2 < y ==> out@.pix(x2, y2) == img@.pix(
                            cx as int + x2,
                            cy as int + y2,
                        ),
                    forall|x2: int|
                        0 <= x2 < x ==> out@.pix(x2, y as int) == img@.pix(
                            cx as int + x2,
                            cy as int + y as int,
                        ),
                decreases cw - x,
            {
                let p = img.get_pixel(cx + x, cy + y);
                out.put_pixel(x, y, p);
                x = x + 1;
            }
            y = y + 1;
        }
        out
    }
}

} // verus!
