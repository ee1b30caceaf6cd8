//! The library against independent formulations of the same behaviour on
//! many generated inputs.
use shell0::commands::ls::name_order;
use shell0::shell::{parse_command, ParseResult};
use shell0::text::{is_space_char, trim};

struct Lcg(u64);

impl Lcg {
    fn next(&mut self) -> u64 {
        self.0 = self.0.wrapping_mul(6364136223846793005).wrapping_add(1442695040888963407);
        self.0 >> 33
    }

    fn text(&mut self, alphabet: &[char], max_len: u64) -> String {
        let n = self.next() % (max_len + 1);
        (0..n).map(|_| alphabet[(self.next() % alphabet.len() as u64) as usize]).collect()
    }
}

#[derive(Debug, PartialEq)]
enum Expected {
    Words(Vec<String>),
    Incomplete,
    Blank,
}

/// A direct tokenizer: quotes toggle, backslash escapes, blanks split.
fn tokenize(input: &str) -> Expected {
    let line = input.trim();
    let mut words = Vec::new();
    let mut word = String::new();
    let (mut dq, mut sq) = (false, false);
    let mut it = line.chars();
    while let Some(c) = it.next() {
        if c == '"' && !sq {
            dq = !dq;
        } else if c == '\'' && !dq {
            sq = !sq;
        } else if c == '\\' && !sq {
            match it.next() {
                None => return Expected::Incomplete,
                Some('n') => word.push('\n'),
                Some('t') => word.push('\t'),
                Some('r') => word.push('\r'),
                Some(e @ ('\\' | '"' | '\'' | ' ')) => word.push(e),
                Some(other) => {
                    word.push('\\');
                    word.push(other);
                }
            }
        } else if (c == ' ' || c == '\t') && !dq && !sq {
            if !word.is_empty() {
                words.push(std::mem::take(&mut word));
            }
        } else {
            word.push(c);
        }
    }
    if dq || sq {
        return Expected::Incomplete;
    }
    if !word.is_empty() {
        words.push(word);
    }
    if words.is_empty() {
        Expected::Blank
    } else {
        Expected::Words(words)
    }
}

#[test]
fn tokenizer_agrees_on_generated_lines() {
    let alphabet = ['a', 'b', ' ', '\t', '"', '\'', '\\', 'n', 't', '\n', '\u{a0}', 'é'];
    let mut g = Lcg(7);
    for _ in 0..20000 {
        let line = g.text(&alphabet, 12);
        let got = match parse_command(&line) {
            ParseResult::Complete(w) => Expected::Words(w),
            ParseResult::Incomplete => Expected::Incomplete,
            ParseResult::Error(m) => {
                assert_eq!(m, "");
                Expected::Blank
            }
        };
        assert_eq!(got, tokenize(&line), "{:?}", line);
    }
}

#[test]
fn white_space_is_unicode_white_space() {
    for u in 0..=0x10FFFFu32 {
        if let Some(c) = char::from_u32(u) {
            assert_eq!(is_space_char(c), c.is_whitespace(), "{:?}", c);
        }
    }
}

#[test]
fn trim_agrees_with_str_trim() {
    let alphabet = ['x', ' ', '\n', '\u{2003}', '\u{3000}', 'y', '\u{200b}'];
    let mut g = Lcg(11);
    for _ in 0..5000 {
        let s = g.text(&alphabet, 10);
        assert_eq!(trim(&s), s.trim(), "{:?}", s);
    }
}

#[test]
fn listing_order_agrees_with_a_stable_sort_by_key() {
    let alphabet = ['.', 'a', 'B', 'b', 'A', 'é', 'É', 'z', '_'];
    let mut g = Lcg(3);
    for _ in 0..500 {
        let names: Vec<String> = (0..(g.next() % 12)).map(|_| g.text(&alphabet, 4)).collect();
        let mut expected: Vec<usize> = (0..names.len()).collect();
        expected.sort_by(|&a, &b| {
            let ka = names[a].trim_start_matches('.').to_lowercase();
            let kb = names[b].trim_start_matches('.').to_lowercase();
            ka.cmp(&kb)
        });
        assert_eq!(name_order(&names), expected, "{:?}", names);
    }
}
