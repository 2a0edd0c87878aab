use randgen::alphabet::{chars_of, has_byte, has_char, resolve, AlphabetSpec, Universe};
use randgen::error::GenError;

fn spec(universe: Universe) -> AlphabetSpec {
    AlphabetSpec { universe, charset: None, exclude: None, exclude_codes: None }
}

#[test]
fn printable_ascii_has_95_symbols() {
    let alphabet = resolve(&spec(Universe::AsciiPrintable)).unwrap();
    assert_eq!(alphabet.len(), 95);
    assert_eq!(alphabet.symbol(0), ' ');
    assert_eq!(alphabet.symbol(94), '~');
    assert!(alphabet.symbols.iter().all(|c| (32..127).contains(&(*c as u32))));
}

#[test]
fn full_ascii_has_128_symbols() {
    let alphabet = resolve(&spec(Universe::AsciiFull)).unwrap();
    assert_eq!(alphabet.len(), 128);
    for (i, c) in alphabet.symbols.iter().enumerate() {
        assert_eq!(*c as usize, i);
    }
}

#[test]
fn unicode_has_every_scalar_value() {
    let alphabet = resolve(&spec(Universe::Unicode)).unwrap();
    assert_eq!(alphabet.len(), 0x110000 - 0x800);
    assert_eq!(alphabet.symbol(0xD7FF), '\u{D7FF}');
    assert_eq!(alphabet.symbol(0xD800), '\u{E000}');
    assert_eq!(alphabet.symbol(alphabet.len() - 1), '\u{10FFFF}');
}

#[test]
fn charset_replaces_the_universe() {
    let mut s = spec(Universe::AsciiPrintable);
    s.charset = Some("xyz".to_string());
    let alphabet = resolve(&s).unwrap();
    assert_eq!(alphabet.symbols, vec!['x', 'y', 'z']);
}

#[test]
fn a_symbol_is_taken_once() {
    let mut s = spec(Universe::AsciiFull);
    s.charset = Some("abcabca".to_string());
    let alphabet = resolve(&s).unwrap();
    assert_eq!(alphabet.symbols, vec!['a', 'b', 'c']);
}

#[test]
fn excluded_symbols_are_left_out() {
    let mut s = spec(Universe::AsciiPrintable);
    s.exclude = Some("aeiou ".to_string());
    let alphabet = resolve(&s).unwrap();
    assert_eq!(alphabet.len(), 89);
    for c in "aeiou ".chars() {
        assert!(!alphabet.contains(c));
    }
    assert!(alphabet.contains('b'));
}

#[test]
fn excluded_codes_are_left_out() {
    let mut s = spec(Universe::AsciiFull);
    s.exclude_codes = Some(vec![0, 10, 13, 65]);
    let alphabet = resolve(&s).unwrap();
    assert_eq!(alphabet.len(), 124);
    assert!(!alphabet.contains('\n'));
    assert!(!alphabet.contains('A'));
    assert!(alphabet.contains('B'));
}

#[test]
fn a_code_bars_every_symbol_with_that_low_byte() {
    let mut s = spec(Universe::AsciiFull);
    s.charset = Some("A\u{141}B".to_string());
    s.exclude_codes = Some(vec![0x41]);
    let alphabet = resolve(&s).unwrap();
    assert_eq!(alphabet.symbols, vec!['B']);
}

#[test]
fn both_exclusions_apply() {
    let mut s = spec(Universe::AsciiFull);
    s.charset = Some("abcdef".to_string());
    s.exclude = Some("ab".to_string());
    s.exclude_codes = Some(vec![b'f']);
    let alphabet = resolve(&s).unwrap();
    assert_eq!(alphabet.symbols, vec!['c', 'd', 'e']);
}

#[test]
fn full_ascii_without_all_of_ascii_is_empty() {
    let mut s = spec(Universe::AsciiFull);
    s.exclude = Some((0u8..128).map(|b| b as char).collect::<String>());
    assert_eq!(resolve(&s), Err(GenError::EmptyAlphabet));
}

#[test]
fn empty_charset_is_empty() {
    let mut s = spec(Universe::Unicode);
    s.charset = Some(String::new());
    assert_eq!(resolve(&s), Err(GenError::EmptyAlphabet));
}

#[test]
fn unicode_charset_with_exclusion() {
    let mut s = spec(Universe::Unicode);
    s.charset = Some("héllo wörld".to_string());
    s.exclude = Some("lo".to_string());
    let alphabet = resolve(&s).unwrap();
    assert_eq!(alphabet.symbols, vec!['h', 'é', ' ', 'w', 'ö', 'r', 'd']);
}

#[test]
fn helpers_look_things_up() {
    assert_eq!(chars_of("aé\u{10000}"), vec!['a', 'é', '\u{10000}']);
    assert!(has_char(&vec!['a', 'b'], 'b'));
    assert!(!has_char(&vec!['a', 'b'], 'c'));
    assert!(has_byte(&vec![1, 2], 2));
    assert!(!has_byte(&vec![], 2));
}
