use meetily_speakers::bytes::{bytes_to_f32_vec, f32_vec_to_bytes};
use meetily_speakers::order::sort_indices;
use meetily_speakers::text::{
    cut_to_bytes, ends_with, fits_bytes, is_before, is_blank_text, is_boundary, is_whitespace,
    join_words, parse_index, push_number, push_two_digits, replace, same_text, starts_with,
    strip_prefix, strip_suffix, trim, trim_end, trim_end_matches, trim_matches, trim_start,
};

fn texts() -> Vec<&'static str> {
    vec![
        "", " ", "a", " a ", "\t a b \n", "a\u{a0}b", "\u{2003}x\u{3000}", "..a.b..", "SPEAKER_07", "Maybe x",
        "\u{e9}t\u{e9}", "\u{1F600}!", "a\r\nb", "....", "/x//", "\u{85}y\u{1680}", "b", "ab", "abc", "\u{ffff}",
    ]
}

#[test]
fn whitespace_is_what_the_system_takes_for_it() {
    for c in '\u{0}'..='\u{10ffff}' {
        assert_eq!(is_whitespace(c), c.is_whitespace());
    }
}

#[test]
fn texts_are_cut_as_the_system_does() {
    for s in texts() {
        assert_eq!(trim(s), s.trim());
        assert_eq!(trim_start(s), s.trim_start());
        assert_eq!(trim_end(s), s.trim_end());
        assert_eq!(is_blank_text(s), s.trim().is_empty());
        assert_eq!(trim_matches(s, '.'), s.trim_matches('.'));
        assert_eq!(trim_end_matches(s, '/'), s.trim_end_matches('/'));
        assert_eq!(join_words(s), s.split_whitespace().collect::<Vec<_>>().join(" "));
        assert_eq!(replace(s, 'a', "<&>"), s.replace('a', "<&>"));
        for t in texts() {
            assert_eq!(same_text(s, t), s == t);
            assert_eq!(starts_with(s, t), s.starts_with(t));
            assert_eq!(ends_with(s, t), s.ends_with(t));
            assert_eq!(strip_prefix(s, t), s.strip_prefix(t));
            assert_eq!(strip_suffix(s, t), s.strip_suffix(t));
            assert_eq!(is_before(s, t), s < t);
        }
        for n in 0..12 {
            assert_eq!(fits_bytes(s, n), s.len() <= n);
            assert_eq!(is_boundary(s, n), n <= s.len() && s.is_char_boundary(n));
            if n <= s.len() && s.is_char_boundary(n) {
                assert_eq!(cut_to_bytes(s, n), &s[..n]);
            }
        }
    }
}

#[test]
fn indices_are_read_as_the_system_does() {
    let largest = usize::MAX.to_string();
    let beyond = format!("{}0", largest);
    for s in ["", "0", "007", "+5", "-5", "+", "1 ", " 1", "1_0", "12a", largest.as_str(), beyond.as_str(), "\u{661}"] {
        assert_eq!(parse_index(s), s.parse::<usize>().ok(), "{:?}", s);
    }
}

#[test]
fn numbers_are_written_as_the_system_does() {
    for n in [0, 7, 9, 10, 99, 100, 12_345, u64::MAX] {
        let mut s = "x".to_string();
        push_number(&mut s, n);
        assert_eq!(s, format!("x{}", n));
        let mut s = String::new();
        push_two_digits(&mut s, n);
        assert_eq!(s, format!("{:02}", n));
    }
}

#[test]
fn sorting_is_stable() {
    let keys: Vec<String> = ["b", "a", "b", "", "a", "\u{e9}", "z"].iter().map(|s| s.to_string()).collect();
    assert_eq!(sort_indices(&keys), vec![3, 1, 4, 0, 2, 6, 5]);
}

#[test]
fn bytes_that_make_no_number_are_left_out() {
    assert_eq!(bytes_to_f32_vec(&[1, 0, 0, 0, 2, 1, 0]), vec![1]);
    assert_eq!(bytes_to_f32_vec(&[0x78, 0x56, 0x34, 0x12]), vec![0x1234_5678]);
    assert_eq!(f32_vec_to_bytes(&[0x1234_5678]), vec![0x78, 0x56, 0x34, 0x12]);
}
