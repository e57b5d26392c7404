use lib::scan::{scan, split, white_space, Token};
use lib::NyoomError;

fn words(text: &str) -> Vec<String> {
    split(text.as_bytes().to_vec())
        .unwrap()
        .iter()
        .map(|w| w.iter().collect::<String>())
        .collect()
}

#[test]
fn scan_reads_the_three_tokens() {
    let r = scan(b"nyoom nugget I //\n".to_vec()).unwrap();
    assert_eq!(r, vec![Token::Prim, Token::Sec, Token::Split]);
}

#[test]
fn scan_of_nothing_is_nothing() {
    assert_eq!(scan(Vec::new()).unwrap(), Vec::<Token>::new());
}

#[test]
fn scan_skips_line_ends() {
    assert_eq!(scan(b"nyoom".to_vec()).unwrap(), vec![Token::Prim]);
    assert_eq!(
        scan(b"nyoom nugget I".to_vec()).unwrap(),
        vec![Token::Prim, Token::Sec, Token::Split]
    );
    assert_eq!(
        scan(b"nyoom
nugget

I
".to_vec()).unwrap(),
        vec![Token::Prim, Token::Sec, Token::Split]
    );
}

#[test]
fn scan_skips_a_comment_then_reads_the_next_line() {
    assert_eq!(
        scan(b"nyoom // any words\nI".to_vec()).unwrap(),
        vec![Token::Prim, Token::Split]
    );
}

#[test]
fn scan_error_index_counts_line_ends() {
    // words: nyoom, \n, nugget, bad, \n
    match scan(b"nyoom\nnugget bad".to_vec()) {
        Err(NyoomError::CompileError(msg, i)) => {
            assert_eq!(msg, "Invalid token");
            assert_eq!(i, 3);
        }
        other => panic!("unexpected {:?}", other),
    }
}

#[test]
fn scan_rejects_an_unknown_word_with_its_index() {
    match scan(b"nyoom nuggets I //\n".to_vec()) {
        Err(NyoomError::CompileError(msg, i)) => {
            assert_eq!(msg, "Invalid token");
            assert_eq!(i, 1);
        }
        other => panic!("unexpected {:?}", other),
    }
}

#[test]
fn scan_skips_comments_up_to_the_end_of_the_line() {
    let r = scan(b"nyoom // nugget anything\nI //\n".to_vec()).unwrap();
    assert_eq!(r, vec![Token::Prim, Token::Split]);
}

#[test]
fn scan_opens_a_comment_at_a_slash_pair_inside_a_word() {
    let r = scan(b"nugget x//y I\n".to_vec()).unwrap();
    assert_eq!(r, vec![Token::Sec]);
}

#[test]
fn scan_reads_past_an_empty_line_after_a_comment() {
    assert_eq!(scan(b"I I //x\n\nI".to_vec()).unwrap(), vec![Token::Split, Token::Split, Token::Split]);
}

#[test]
fn scan_splits_on_any_unicode_whitespace() {
    let text = "nyoom\tnugget\u{00A0}I\u{3000}nyoom //\r\n";
    let r = scan(text.as_bytes().to_vec()).unwrap();
    assert_eq!(r, vec![Token::Prim, Token::Sec, Token::Split, Token::Prim]);
}

#[test]
fn split_gives_each_line_then_a_newline_word() {
    assert_eq!(words("a b\nc"), vec!["a", "b", "\n", "c", "\n"]);
    assert_eq!(words("a  b\n"), vec!["a", "b", "\n"]);
    assert_eq!(words("\n\n"), vec!["\n", "\n"]);
    assert_eq!(words("  "), vec!["\n"]);
    assert_eq!(words("x\r\ny"), vec!["x", "\n", "y", "\n"]);
    assert_eq!(words(""), Vec::<String>::new());
}

#[test]
fn white_space_matches_char_is_whitespace() {
    for c in ['\t', '\n', '\u{b}', '\u{c}', '\r', ' ', '\u{85}', '\u{a0}', '\u{1680}', '\u{2000}',
        '\u{200a}', '\u{2028}', '\u{2029}', '\u{202f}', '\u{205f}', '\u{3000}', 'a', '\u{200b}',
        '\u{180e}', 'I', '\u{feff}']
    {
        assert_eq!(white_space(c), c.is_whitespace(), "{:?}", c);
    }
}
