use hexpng::request::{
    contains, hex_digit, hex_pair, is_char_boundary, matches_at, parse_channels, route, Route,
};

#[test]
fn index_page_is_asked_for() {
    assert_eq!(route(b"GET / HTTP/1.1"), Some(Route::Index));
    assert_eq!(route(b"GET / HTTP/1.0"), Some(Route::Index));
    // the words may stand anywhere in the line
    assert_eq!(route(b"xx GET / HTTP"), Some(Route::Index));
}

#[test]
fn other_lines_are_not_found() {
    assert_eq!(route(b""), Some(Route::NotFound));
    assert_eq!(route(b"GET /favicon.ico HTTP/1.1"), Some(Route::NotFound));
    assert_eq!(route(b"POST / HTTP/1.1"), Some(Route::NotFound));
    assert_eq!(route(b"GET /hexpng HTTP/1.1"), Some(Route::NotFound));
}

#[test]
fn three_channels_are_an_opaque_colour() {
    assert_eq!(
        route(b"GET /hexpng/eb2323 HTTP/1.1"),
        Some(Route::Image { r: 0xEB, g: 0x23, b: 0x23, a: 255 })
    );
    assert_eq!(
        route(b"GET /hexpng/000000 HTTP/1.1"),
        Some(Route::Image { r: 0, g: 0, b: 0, a: 255 })
    );
    assert_eq!(
        route(b"GET /hexpng/FfA09c HTTP/1.0"),
        Some(Route::Image { r: 0xFF, g: 0xA0, b: 0x9C, a: 255 })
    );
}

#[test]
fn four_channels_carry_the_opacity() {
    assert_eq!(
        route(b"GET /hexpng/eb23237f HTTP/1.1"),
        Some(Route::Image { r: 235, g: 35, b: 35, a: 127 })
    );
    assert_eq!(
        route(b"GET /hexpng/01020300 HTTP/1.1"),
        Some(Route::Image { r: 1, g: 2, b: 3, a: 0 })
    );
}

#[test]
fn other_counts_of_channels_are_not_found() {
    assert_eq!(route(b"GET /hexpng/ HTTP/1.1"), Some(Route::NotFound));
    assert_eq!(route(b"GET /hexpng/ff HTTP/1.1"), Some(Route::NotFound));
    assert_eq!(route(b"GET /hexpng/ffff HTTP/1.1"), Some(Route::NotFound));
    assert_eq!(route(b"GET /hexpng/0102030405 HTTP/1.1"), Some(Route::NotFound));
}

#[test]
fn odd_length_is_not_found_whatever_it_holds() {
    assert_eq!(route(b"GET /hexpng/fff HTTP/1.1"), Some(Route::NotFound));
    assert_eq!(route(b"GET /hexpng/zzzzz HTTP/1.1"), Some(Route::NotFound));
    assert_eq!(route(b"GET /hexpng/eb23237 HTTP/1.1"), Some(Route::NotFound));
}

#[test]
fn unreadable_colour_gives_nothing() {
    assert_eq!(route(b"GET /hexpng/zzzzzz HTTP/1.1"), None);
    assert_eq!(route(b"GET /hexpng/eb232g HTTP/1.1"), None);
    assert_eq!(route(b"GET /hexpng/eb 323 HTTP/1.1"), None);
    // even where the count of channels would not be served
    assert_eq!(route(b"GET /hexpng/zz HTTP/1.1"), None);
    assert_eq!(route(b"GET /hexpng/-1 HTTP/1.1"), None);
}

#[test]
fn too_short_line_gives_nothing() {
    assert_eq!(route(b"GET /hexpng/"), None);
    assert_eq!(route(b"GET /hexpng/ffffff"), None);
    assert_eq!(route(b"GET /hexpng/12345678"), None);
    // twenty-one bytes are enough: the colour is empty
    assert_eq!(route(b"GET /hexpng/123456789"), Some(Route::NotFound));
}

#[test]
fn colour_cut_inside_a_character_gives_nothing() {
    // the last nine bytes start in the middle of a two-byte character
    let mut line = b"GET /hexpng/ffffff".to_vec();
    line.extend_from_slice("é".as_bytes());
    line.extend_from_slice(b"TTP/1.1.");
    assert_eq!(line.len() - 9, 19);
    assert_eq!(route(&line), None);
    // the twelfth byte is in the middle of a character
    let mut early = "01234567890é".as_bytes().to_vec();
    early.extend_from_slice(b"GET /hexpng/ffffff HTTP/1.1");
    assert_eq!(route(&early), None);
}

#[test]
fn colour_is_read_at_the_twelfth_byte_wherever_the_words_stand() {
    // the words come later in the line: what stands from byte twelve on is
    // still read as the colour
    assert_eq!(route(b"012345678901aabbcc GET /hexpng/"), None);
    assert_eq!(route(b"01234567890 aabbccGET /hexpng/ HTTP/1.1"), None);
    assert_eq!(route(b"xGET /hexpng/abcdef12345678"), None);
    // an odd count of bytes there is not found
    assert_eq!(route(b"            aabbccGET /hexpng/12345678"), Some(Route::NotFound));
    assert_eq!(route(b"012345678901aabbccGET /hexpng/"), Some(Route::NotFound));
}

#[test]
fn plus_sign_counts_as_a_leading_zero() {
    assert_eq!(hex_pair(b'+', b'f'), Some(15));
    assert_eq!(hex_pair(b'+', b'0'), Some(0));
    assert_eq!(hex_pair(b'+', b'+'), None);
    assert_eq!(hex_pair(b'f', b'+'), None);
    assert_eq!(hex_pair(b'-', b'1'), None);
    assert_eq!(
        route(b"GET /hexpng/+a+b+c HTTP/1.1"),
        Some(Route::Image { r: 10, g: 11, b: 12, a: 255 })
    );
    // as the number parser of the standard library reads them
    assert_eq!(u8::from_str_radix("+f", 16).ok(), hex_pair(b'+', b'f'));
    assert_eq!(u8::from_str_radix("f+", 16).ok(), hex_pair(b'f', b'+'));
    assert_eq!(u8::from_str_radix("-1", 16).ok(), hex_pair(b'-', b'1'));
}

#[test]
fn hex_pairs_agree_with_the_standard_parser() {
    for hi in 0u8..128 {
        for lo in 0u8..128 {
            let text = String::from_utf8(vec![hi, lo]).unwrap();
            assert_eq!(hex_pair(hi, lo), u8::from_str_radix(&text, 16).ok());
        }
    }
}

#[test]
fn hex_digits_in_either_case() {
    assert_eq!(hex_digit(b'0'), Some(0));
    assert_eq!(hex_digit(b'9'), Some(9));
    assert_eq!(hex_digit(b'a'), Some(10));
    assert_eq!(hex_digit(b'f'), Some(15));
    assert_eq!(hex_digit(b'A'), Some(10));
    assert_eq!(hex_digit(b'F'), Some(15));
    assert_eq!(hex_digit(b'g'), None);
    assert_eq!(hex_digit(b'G'), None);
    assert_eq!(hex_digit(b'/'), None);
    assert_eq!(hex_digit(b':'), None);
    assert_eq!(hex_digit(b'@'), None);
    assert_eq!(hex_digit(b'`'), None);
    assert_eq!(hex_digit(0xFF), None);
}

#[test]
fn channels_of_a_colour() {
    assert_eq!(parse_channels(b""), Some(vec![]));
    assert_eq!(parse_channels(b"00ff7F"), Some(vec![0, 255, 127]));
    assert_eq!(parse_channels(b"0102030405"), Some(vec![1, 2, 3, 4, 5]));
    assert_eq!(parse_channels(b"01zz"), None);
    assert_eq!(parse_channels(b"zz01"), None);
    // an odd number of bytes has no channels, whatever it holds
    assert_eq!(parse_channels(b"0"), Some(vec![]));
    assert_eq!(parse_channels(b"01020"), Some(vec![]));
    assert_eq!(parse_channels(b"zzz"), Some(vec![]));
}

#[test]
fn needle_in_hay() {
    assert!(contains(b"hello world", b"o w"));
    assert!(contains(b"hello world", b"hello world"));
    assert!(contains(b"hello world", b"d"));
    assert!(contains(b"hello world", b""));
    assert!(contains(b"", b""));
    assert!(!contains(b"", b"a"));
    assert!(!contains(b"hello", b"hello world"));
    assert!(!contains(b"hello world", b"ow"));
    assert!(contains(b"aaab", b"aab"));
}

#[test]
fn needle_at_a_place() {
    assert!(matches_at(b"hello", b"ell", 1));
    assert!(!matches_at(b"hello", b"ell", 0));
    assert!(matches_at(b"hello", b"", 5));
    assert!(matches_at(b"hello", b"hello", 0));
    assert!(!matches_at(b"hello", b"lo", 4));
    assert!(!matches_at(b"hello", b"", 6));
    assert!(!matches_at(b"hello", b"hello!", 0));
    assert!(!matches_at(b"hello", b"o", usize::MAX));
}

#[test]
fn boundaries_of_characters() {
    let text = "aé".as_bytes();
    assert!(is_char_boundary(text, 0));
    assert!(is_char_boundary(text, 1));
    assert!(!is_char_boundary(text, 2));
    assert!(is_char_boundary(text, 3));
    for i in 0..=text.len() + 2 {
        assert_eq!(is_char_boundary(text, i), "aé".is_char_boundary(i));
    }
}
