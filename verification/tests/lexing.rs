use ansl::util::{lex_file, lex_file_checked, Interner};

#[test]
fn interner_gives_each_string_one_symbol() {
    let mut db = Interner::new();
    assert_eq!(db.len(), 0);
    assert_eq!(db.intern("a"), 0);
    assert_eq!(db.intern("b"), 1);
    assert_eq!(db.intern("a"), 0);
    assert_eq!(db.len(), 2);
    assert_eq!(db.resolve(0).unwrap(), "a");
    assert_eq!(db.resolve(1).unwrap(), "b");
    assert!(db.resolve(2).is_none());
}

#[test]
fn lexes_words_and_special_characters() {
    let l = lex_file("let x;", "f", &['"'], &[' ', '\n'], &[';'], Interner::new());
    assert_eq!(l.inner.len(), 1);
    let run = &l.inner[0];
    assert_eq!(run.len(), 3);
    let texts: Vec<String> = run.iter().map(|e| l.str_db.resolve(e.0).unwrap()).collect();
    assert_eq!(texts, vec!["let".to_string(), "x".to_string(), ";".to_string()]);
    assert_eq!(run[0].0, 2);
    assert_eq!(*run[0].1.file(), 0);
    assert_eq!(*run[0].1.line(), 1);
    assert_eq!(run[0].1.line_number(), 1);
    assert_eq!(run[0].1.line_column(), 4);
    assert_eq!(run[1].1.line_column(), 6);
    assert_eq!(run[2].1.line_column(), 6);
    assert_eq!(l.str_db.resolve(0).unwrap(), "f");
    assert_eq!(l.str_db.resolve(1).unwrap(), "let x;");
    assert_eq!(l.str_db.len(), 5);
}

#[test]
fn quoted_parts_stay_whole() {
    let l = lex_file("say \"a b\" now", "f", &['"'], &[' '], &[], Interner::new());
    let texts: Vec<String> = l.inner[0].iter().map(|e| l.str_db.resolve(e.0).unwrap()).collect();
    assert_eq!(texts, vec!["say".to_string(), "\"a b\"".to_string(), "now".to_string()]);
}

#[test]
fn comment_drops_the_lexeme_before_it() {
    let l = lex_file("a // b", "f", &['"'], &[' '], &[], Interner::new());
    assert_eq!(l.inner.len(), 1);
    assert_eq!(l.inner[0].len(), 1);
    assert_eq!(l.str_db.resolve(l.inner[0][0].0).unwrap(), "/");
    assert_eq!(l.inner[0][0].1.line_column(), 4);
}

#[test]
fn lines_are_numbered_and_one_run_is_kept() {
    let l = lex_file("a\nb c\n", "f", &[], &[' '], &[], Interner::new());
    assert_eq!(l.inner.len(), 1);
    let run = &l.inner[0];
    assert_eq!(run.len(), 3);
    assert_eq!(run[0].1.line_number(), 1);
    assert_eq!(run[1].1.line_number(), 2);
    assert_eq!(run[2].1.line_number(), 2);
    assert_eq!(l.str_db.resolve(*run[1].1.line()).unwrap(), "b c");
}

#[test]
fn empty_text_gives_no_lexeme() {
    let l = lex_file("", "f", &[], &[' '], &[], Interner::new());
    assert_eq!(l.inner.len(), 0);
    assert_eq!(l.str_db.len(), 0);
}

#[test]
fn checked_lexing_matches() {
    let l = lex_file_checked("x y", "f", &[], &[' '], &[], Interner::new()).unwrap();
    assert_eq!(l.inner[0].len(), 2);
    assert_eq!(l.str_db.resolve(l.inner[0][1].0).unwrap(), "y");
}

#[test]
fn lexing_keeps_strings_already_interned() {
    let mut db = Interner::new();
    assert_eq!(db.intern("kept"), 0);
    assert_eq!(db.intern("x"), 1);
    let l = lex_file("x y", "f", &[], &[' '], &[], db);
    assert_eq!(l.str_db.resolve(0).unwrap(), "kept");
    assert_eq!(l.str_db.resolve(1).unwrap(), "x");
    let run = &l.inner[0];
    assert_eq!(run[0].0, 1);
    for e in run.iter() {
        assert_eq!(l.str_db.resolve(*e.1.file()).unwrap(), "f");
        assert!(l.str_db.resolve(*e.1.line()).is_some());
    }
}

#[test]
fn words_of_each_line_with_line_numbers() {
    let l = lex_file("a  b\n\nc d", "f", &[], &[' '], &[], Interner::new());
    let words: Vec<(String, usize)> =
        l.inner[0].iter().map(|e| (l.str_db.resolve(e.0).unwrap(), e.1.line_number())).collect();
    assert_eq!(
        words,
        vec![("a".to_string(), 1), ("b".to_string(), 1), ("c".to_string(), 3), ("d".to_string(), 3)]
    );
}
