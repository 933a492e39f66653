use amadeus_tui::cursor::{
    bytes_in, bytes_of_char, can_remove_word, cut, insert_at, next_boundary, prev_boundary,
    remove_after, remove_before, remove_word,
};
use amadeus_tui::layout::layout_input;
use amadeus_tui::text::{
    blank, chars_of, concat2, concat3, is_whitespace, join, lines, number, pad_right, split_newlines,
    split_word, starts_with, starts_with_char, str_eq, trim, trim_end,
};

#[test]
fn cursor_lands_on_the_right_row_after_a_newline() {
    let (rows, r, c) = layout_input("ab\ncd", 4, 20);

    assert_eq!(rows, vec!["ab".to_string(), "cd".to_string()]);

    assert_eq!((r, c), (1, 1));
}

#[test]
fn hard_wrap_splits_at_width() {
    let (rows, _, _) = layout_input("abcdef", 0, 3);

    assert_eq!(rows, vec!["abc".to_string(), "def".to_string()]);
}

#[test]
fn cursor_at_end_is_past_the_last_char() {
    let (_, r, c) = layout_input("hi", 2, 20);

    assert_eq!((r, c), (0, 2));
}

#[test]
fn multibyte_navigation_never_splits_a_char() {
    let s = "héllo";

    let one = next_boundary(s, 0);
    let two = next_boundary(s, one);

    assert_eq!(&s[..two], "hé");
    assert_eq!(prev_boundary(s, two), one);
}

#[test]
fn an_empty_buffer_is_one_empty_row() {
    assert_eq!(layout_input("", 0, 20), (vec![String::new()], 0, 0));
}

#[test]
fn rows_are_at_least_one_character_wide() {
    let (rows, r, c) = layout_input("abc", 1, 0);
    assert_eq!(rows, vec!["a".to_string(), "b".to_string(), "c".to_string()]);
    assert_eq!((r, c), (0, 1));
}

#[test]
fn a_full_row_keeps_the_cursor_behind_it() {
    assert_eq!(layout_input("abc", 3, 3), (vec!["abc".to_string()], 0, 3));
    let (rows, r, c) = layout_input("abc\n", 4, 3);
    assert_eq!(rows, vec!["abc".to_string(), String::new()]);
    assert_eq!((r, c), (1, 0));
}

#[test]
fn an_offset_inside_a_character_shows_the_cursor_at_the_end() {
    let (_, r, c) = layout_input("é\nx", 1, 20);
    assert_eq!((r, c), (1, 1));
}

#[test]
fn rows_read_one_after_the_other_are_the_text() {
    let text = "one two\n\nthree é four";
    for width in 1..10 {
        let (rows, _, _) = layout_input(text, 0, width);
        assert_eq!(rows.concat(), text.replace('\n', ""));
        assert!(rows.iter().all(|row| row.chars().count() <= width));
    }
}

#[test]
fn rows_are_the_paragraphs_cut_to_width() {
    let text = "abcdef\n\nabcdefg\né€x\n";
    for width in 1..9 {
        let mut want = Vec::new();
        for p in text.split('\n') {
            let chars: Vec<char> = p.chars().collect();
            if chars.is_empty() {
                want.push(String::new());
            }
            want.extend(chars.chunks(width).map(|piece| piece.iter().collect::<String>()));
        }
        assert_eq!(layout_input(text, 0, width).0, want);
    }
}

#[test]
fn the_cursor_stands_on_the_next_character() {
    let text = "one two\nthree é";
    for (i, c) in text.char_indices() {
        let (rows, r, col) = layout_input(text, i, 5);
        if c != '\n' && col < 5 {
            assert_eq!(rows[r].chars().nth(col), Some(c));
        }
    }
}

#[test]
fn boundaries_stop_at_both_ends() {
    let s = "aé€😀";
    assert_eq!(prev_boundary(s, 0), 0);
    assert_eq!(next_boundary(s, 10), 10);
    assert_eq!(next_boundary(s, 99), 10);
    assert_eq!(next_boundary(s, 1), 3);
    assert_eq!(next_boundary(s, 2), 3);
    assert_eq!(next_boundary(s, 3), 6);
    assert_eq!(prev_boundary(s, 10), 6);
    assert_eq!(prev_boundary(s, 99), 10);
    assert_eq!(bytes_in(s), 10);
}

#[test]
fn characters_take_one_to_four_bytes() {
    for c in ['a', '\u{7f}', '\u{80}', '\u{7ff}', '\u{800}', '\u{ffff}', '\u{10000}', '\u{10ffff}'] {
        assert_eq!(bytes_of_char(c), c.len_utf8());
    }
}

#[test]
fn editing_happens_at_the_cursor() {
    assert_eq!(cut("aéb", 3), ("aé", "b"));
    assert_eq!(insert_at("ab", 1, "é"), ("aéb".to_string(), 3));
    assert_eq!(remove_before("aéb", 3), ("ab".to_string(), 1));
    assert_eq!(remove_before("aéb", 0), ("aéb".to_string(), 0));
    assert_eq!(remove_after("aéb", 1), ("ab".to_string(), 1));
    assert_eq!(remove_after("aéb", 4), ("aéb".to_string(), 4));
}

#[test]
fn inserting_and_removing_undo_each_other() {
    let (text, at) = insert_at("ab", 1, "€");
    assert_eq!(remove_before(&text, at), ("ab".to_string(), 1));
}

#[test]
fn a_word_goes_with_the_white_space_behind_it() {
    assert_eq!(remove_word("one two  ", 9), ("one ".to_string(), 4));
    assert_eq!(remove_word("one two three", 7), ("one  three".to_string(), 4));
    assert_eq!(remove_word("one", 3), (String::new(), 0));
    assert_eq!(remove_word("", 0), (String::new(), 0));
    assert_eq!(remove_word("   ", 3), (String::new(), 0));
}

#[test]
fn a_word_behind_wide_white_space_cannot_be_removed() {
    assert!(can_remove_word("a b", 3));
    assert!(!can_remove_word("a\u{3000}b", 5));
    assert!(can_remove_word("a\u{3000}", 4));
}

#[test]
fn white_space_is_what_unicode_says() {
    for n in 0..=0x10ffffu32 {
        if let Some(c) = char::from_u32(n) {
            assert_eq!(is_whitespace(c), c.is_whitespace(), "U+{n:04X}");
        }
    }
}

#[test]
fn texts_are_trimmed_and_split() {
    let samples = [
        "", " ", "a", " a ", "\t a b \n", "a\nb", "a\r\nb\r\n", "\n\n", "\r", "a\rb\n", "\u{a0}x\u{2003}",
        "one two three", "line\n", "\nline", "é\u{85}", "a\r\r\n",
    ];
    for s in samples {
        assert_eq!(trim(s), s.trim());
        assert_eq!(trim_end(s), s.trim_end());
        assert_eq!(blank(s), s.trim().is_empty());
        assert_eq!(lines(s), s.lines().collect::<Vec<_>>());
        assert_eq!(split_newlines(s), s.split('\n').collect::<Vec<_>>());
        assert_eq!(chars_of(s), s.chars().collect::<Vec<_>>());
        let (word, rest) = split_word(s);
        match s.find(char::is_whitespace) {
            Some(i) => assert_eq!((word.as_str(), rest.as_str()), (&s[..i], &s[i..])),
            None => assert_eq!((word.as_str(), rest.as_str()), (s, "")),
        }
        for t in samples {
            assert_eq!(str_eq(s, t), s == t);
            assert_eq!(starts_with(s, t), s.starts_with(t));
            assert_eq!(concat2(s, t), format!("{s}{t}"));
            assert_eq!(concat3(s, t, s), format!("{s}{t}{s}"));
        }
    }
}

#[test]
fn texts_are_joined_and_padded() {
    let parts = vec!["a".to_string(), String::new(), "b".to_string()];
    assert_eq!(join(&parts, "\n"), "a\n\nb");
    assert_eq!(join(&Vec::new(), "\n"), "");
    assert_eq!(pad_right("é", 3), "é  ");
    assert_eq!(pad_right("long", 3), "long");
    assert!(starts_with_char("/x", '/'));
    assert!(!starts_with_char("", '/'));
}

#[test]
fn numbers_are_decimal() {
    for n in [0, 7, 9, 10, 19, 100, 1783372494, u64::MAX] {
        assert_eq!(number(n), n.to_string());
    }
}
