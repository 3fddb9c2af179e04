//! Which page the first line of a request asks for.
//!
//! The line is taken as bytes. A line asks for the index page where it
//! holds `GET / HTTP`, and for an image where it holds `GET /hexpng/`;
//! the colour of the image stands between the twelfth byte and the last
//! nine bytes, two hexadecimal digits for each of three or four channels.

use vstd::prelude::*;
use vstd::slice::slice_subrange;

verus! {

/// The bytes of `GET / HTTP`.
pub const INDEX_REQUEST: [u8; 10] = [0x47, 0x45, 0x54, 0x20, 0x2F, 0x20, 0x48, 0x54, 0x54, 0x50];

/// The bytes of `GET /hexpng/`.
pub const IMAGE_REQUEST: [u8; 12] = [
    0x47,
    0x45,
    0x54,
    0x20,
    0x2F,
    0x68,
    0x65,
    0x78,
    0x70,
    0x6E,
    0x67,
    0x2F,
];

/// Where the colour starts in a line that asks for an image.
pub const COLOR_START: usize = 12;

/// How many bytes follow the colour in a line that asks for an image.
pub const COLOR_TAIL: usize = 9;

/// What a request line asks for.
#[derive(Clone, Copy, Debug, PartialEq, Eq, Structural)]
pub enum Route {
    /// The index page.
    Index,
    /// An image of one colour.
    Image { r: u8, g: u8, b: u8, a: u8 },
    /// Nothing that is served.
    NotFound,
}

/// `needle` stands in `hay` at the place `i`.
pub open spec fn occurs_at(hay: Seq<u8>, needle: Seq<u8>, i: int) -> bool {
    &&& 0 <= i
    &&& i + needle.len() <= hay.len()
    &&& forall|j: int| 0 <= j < needle.len() ==> hay[i + j] == needle[j]
}

/// `needle` stands somewhere in `hay`.
pub open spec fn spec_contains(hay: Seq<u8>, needle: Seq<u8>) -> bool {
    exists|i: int| occurs_at(hay, needle, i)
}

/// A character of the text starts at byte `i`, or the text ends there.
pub open spec fn is_boundary(text: Seq<u8>, i: int) -> bool {
    i == 0 || i == text.len() || (0 < i < text.len() && !(0x80 <= text[i] < 0xC0))
}

/// The value of a hexadecimal digit, in either case.
pub open spec fn digit_value(c: u8) -> Option<u8> {
    if 0x30 <= c <= 0x39 {
        Some((c - 0x30) as u8)
    } else if 0x61 <= c <= 0x66 {
        Some((c - 0x61 + 10) as u8)
    } else if 0x41 <= c <= 0x46 {
        Some((c - 0x41 + 10) as u8)
    } else {
        None
    }
}

/// The value of two bytes read as a hexadecimal number: two digits, or a
/// plus sign and one digit.
pub open spec fn pair_value(hi: u8, lo: u8) -> Option<u8> {
    match digit_value(lo) {
        None => None,
        Some(l) => if hi == 0x2B {
            Some(l)
        } else {
            match digit_value(hi) {
                Some(h) => Some((16 * h + l) as u8),
                None => None,
            }
        },
    }
}

/// Every two bytes of `s` are a hexadecimal number.
pub open spec fn all_pairs(s: Seq<u8>) -> bool {
    forall|k: int| 0 <= k < s.len() / 2 ==> (#[trigger] pair_value(s[2 * k], s[2 * k + 1])) is Some
}

/// The values of the pairs of `s`, in order.
pub open spec fn spec_channels(s: Seq<u8>) -> Seq<u8> {
    Seq::new((s.len() / 2) as nat, |k: int| pair_value(s[2 * k], s[2 * k + 1]).unwrap())
}

/// The channels of the colour `s`: none where `s` has an odd number of
/// bytes, else the values of its pairs, or `None` where two of them are
/// no hexadecimal number.
pub open spec fn spec_color(s: Seq<u8>) -> Option<Seq<u8>> {
    if s.len() % 2 != 0 {
        Some(Seq::empty())
    } else if all_pairs(s) {
        Some(spec_channels(s))
    } else {
        None
    }
}

/// What a colour of the given channels asks for: three channels are an
/// opaque colour, four a colour with its opacity.
pub open spec fn spec_color_route(col: Seq<u8>) -> Route {
    if col.len() == 3 {
        Route::Image { r: col[0], g: col[1], b: col[2], a: 255 }
    } else if col.len() == 4 {
        Route::Image { r: col[0], g: col[1], b: col[2], a: col[3] }
    } else {
        Route::NotFound
    }
}

/// What the line asks for, or `None` where its colour cannot be read:
/// the line is too short to hold one, the colour is cut inside a
/// character, or it has an even number of bytes that are not all
/// hexadecimal pairs. A colour of an odd number of bytes is read as one
/// of no channels.
pub open spec fn spec_route(line: Seq<u8>) -> Option<Route> {
    if spec_contains(line, INDEX_REQUEST@) {
        Some(Route::Index)
    } else if !spec_contains(line, IMAGE_REQUEST@) {
        Some(Route::NotFound)
    } else if line.len() < COLOR_START + COLOR_TAIL || !is_boundary(line, COLOR_START as int)
        || !is_boundary(line, line.len() - COLOR_TAIL) {
        None
    } else {
        match spec_color(line.subrange(COLOR_START as int, line.len() - COLOR_TAIL)) {
            Some(col) => Some(spec_color_route(col)),
            None => None,
        }
    }
}

/// Whether `needle` stands in `hay` at the place `i`.
pub fn matches_at(hay: &[u8], needle: &[u8], i: usize) -> (found: bool)
    ensures
        found == occurs_at(hay@, needle@, i as int),
{
    if needle.len() > hay.len() || i > hay.len() - needle.len() {
        return false;
    }
    let mut j: usize = 0;
    while j < needle.len()
        invariant
            j <= needle@.len(),
            i + needle@.len() <= hay@.len() == hay.len(),
            forall|t: int| 0 <= t < j ==> hay@[i + t] == needle@[t],
        decreases needle@.len() - j,
    {
        if hay[i + j] != needle[j] {
            return false;
        }
        j += 1;
    }
    true
}

/// Whether `needle` stands somewhere in `hay`.
pub fn contains(hay: &[u8], needle: &[u8]) -> (found: bool)
    ensures
        found == spec_contains(hay@, needle@),
{
    if needle.len() > hay.len() {
        assert forall|i: int| !occurs_at(hay@, needle@, i) by {}
        return false;
    }
    let last: usize = hay.len() - needle.len();
    let mut i: usize = 0;
    loop
        invariant
            i <= last,
            last == hay@.len() - needle@.len(),
            forall|t: int| 0 <= t < i ==> !occurs_at(hay@, needle@, t),
        ensures
            forall|t: int| 0 <= t <= last ==> !occurs_at(hay@, needle@, t),
        decreases last - i,
    {
        if matches_at(hay, needle, i) {
            return true;
        }
        if i == last {
            break;
        }
        i += 1;
    }
    assert forall|t: int| !occurs_at(hay@, needle@, t) by {
        if 0 <= t <= last {
            assert(!occurs_at(hay@, needle@, t));
        }
    }
    false
}

/// Whether a character of `text` starts at byte `i`, or `text` ends
/// there.
pub fn is_char_boundary(text: &[u8], i: usize) -> (yes: bool)
    ensures
        yes == is_boundary(text@, i as int),
{
    if i == 0 || i == text.len() {
        true
    } else if i > text.len() {
        false
    } else {
        let b: u8 = text[i];
        !(0x80 <= b && b < 0xC0)
    }
}

/// The value of a hexadecimal digit, in either case.
pub fn hex_digit(c: u8) -> (value: Option<u8>)
    ensures
        value == digit_value(c),
{
    if 0x30 <= c && c <= 0x39 {
        Some(c - 0x30)
    } else if 0x61 <= c && c <= 0x66 {
        Some(c - 0x61 + 10)
    } else if 0x41 <= c && c <= 0x46 {
        Some(c - 0x41 + 10)
    } else {
        None
    }
}

/// The value of two bytes read as a hexadecimal number.
pub fn hex_pair(hi: u8, lo: u8) -> (value: Option<u8>)
    ensures
        value == pair_value(hi, lo),
{
    match hex_digit(lo) {
        None => None,
        Some(l) => {
            if hi == 0x2B {
                Some(l)
            } else {
                match hex_digit(hi) {
                    Some(h) => Some(16 * h + l),
                    None => None,
                }
            }
        },
    }
}

/// The channels of the colour `s`, two bytes for each: none where `s`
/// has an odd number of bytes, and `None` where two of its bytes are no
/// hexadecimal number.
pub fn parse_channels(s: &[u8]) -> (out: Option<Vec<u8>>)
    ensures
        match spec_color(s@) {
            Some(col) => out matches Some(v) && v@ == col,
            None => out is None,
        },
{
    let mut col: Vec<u8> = Vec::new();
    if s.len() % 2 != 0 {
        return Some(col);
    }
    let mut i: usize = 0;
    while i < s.len()
        invariant
            i <= s@.len(),
            i % 2 == 0,
            s@.len() % 2 == 0,
            col@.len() == i / 2,
            forall|k: int|
                0 <= k < i / 2 ==> (#[trigger] pair_value(s@[2 * k], s@[2 * k + 1])) == Some(
                    col@[k],
                ),
        decreases s@.len() - i,
    {
        match hex_pair(s[i], s[i + 1]) {
            None => {
                assert(pair_value(s@[2 * (i as int / 2)], s@[2 * (i as int / 2) + 1]) is None);
                return None;
            },
            Some(v) => {
                col.push(v);
            },
        }
        i += 2;
    }
    assert(col@ =~= spec_channels(s@));
    Some(col)
}

/// What the request line `line` asks for, or `None` where its colour
/// cannot be read.
pub fn route(line: &[u8]) -> (out: Option<Route>)
    ensures
        out == spec_route(line@),
{
    if contains(line, INDEX_REQUEST.as_slice()) {
        return Some(Route::Index);
    }
    if !contains(line, IMAGE_REQUEST.as_slice()) {
        return Some(Route::NotFound);
    }
    let n: usize = line.len();
    if n < COLOR_START + COLOR_TAIL {
        return None;
    }
    if !is_char_boundary(line, COLOR_START) || !is_char_boundary(line, n - COLOR_TAIL) {
        return None;
    }
    let s = slice_subrange(line, COLOR_START, n - COLOR_TAIL);
    match parse_channels(s) {
        None => None,
        Some(col) => {
            if col.len() == 3 {
                Some(Route::Image { r: col[0], g: col[1], b: col[2], a: 255 })
            } else if col.len() == 4 {
                Some(Route::Image { r: col[0], g: col[1], b: col[2], a: col[3] })
            } else {
                Some(Route::NotFound)
            }
        },
    }
}

} // verus!
