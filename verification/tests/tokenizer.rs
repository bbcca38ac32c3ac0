use ansl::lexer::match_keyword;
use ansl::token::{FileRequest, PrimitiveType, Source, SourceFile, Token, TokenKind, TokenStream};

fn tok_source(files: &[(&str, &str)]) -> Source {
    let mut src = Source::new();
    for (name, text) in files {
        src.add_file(SourceFile::new(name, text));
    }
    src
}

fn tok_run(files: &[(&str, &str)], entry: &str) -> TokenStream {
    let src = tok_source(files);
    let mut ts = TokenStream::new();
    assert!(matches!(ts.next_file_request(entry, &src), FileRequest::Ready));
    assert!(ts.tokenize_source_tree(entry, &src).is_ok());
    ts
}

fn tok_all(ts: &mut TokenStream) -> Vec<Token> {
    let mut v = Vec::new();
    while let Some(t) = ts.next() {
        v.push(t);
    }
    v
}

fn tok_check(t: &Token, kind: TokenKind, lexeme: &str, file: &str, line: usize, col: usize) {
    assert_eq!(t.kind, kind);
    assert_eq!(t.lexeme, lexeme);
    assert_eq!(t.metadata.file_name(), file);
    assert_eq!(t.metadata.line_number(), line);
    assert_eq!(t.metadata.column(), col);
}

#[test]
fn tokenizes_a_constant_declaration() {
    let mut ts = tok_run(&[("main", "const x : u8 = 1;\n")], "main");
    let v = tok_all(&mut ts);
    assert_eq!(v.len(), 8);
    tok_check(&v[0], TokenKind::KWconst, "const", "main", 1, 1);
    tok_check(&v[1], TokenKind::Identifer, "x", "main", 1, 7);
    tok_check(&v[2], TokenKind::Colon, ":", "main", 1, 9);
    tok_check(&v[3], TokenKind::Primitive(PrimitiveType::Unsigned8), "u8", "main", 1, 11);
    tok_check(&v[4], TokenKind::Assign, "=", "main", 1, 14);
    tok_check(&v[5], TokenKind::NumberLiteral, "1", "main", 1, 16);
    tok_check(&v[6], TokenKind::SemiColon, ";", "main", 1, 17);
    tok_check(&v[7], TokenKind::EOF, "", "", 1, 1);
}

#[test]
fn token_display_strings() {
    let mut ts = tok_run(&[("main", "const x : u8 = 1;\n")], "main");
    let text = ts.to_display_string();
    let lines: Vec<&str> = text.split('\n').collect();
    assert_eq!(lines.len(), 9);
    assert_eq!(lines[0], "<KWconst `const` [1:1]>");
    assert_eq!(lines[3], "<Primitive(\"u8\") `u8` [1:11]>");
    assert_eq!(lines[7], "<EOF `` [1:1]>");
    assert_eq!(lines[8], "");
    let first = ts.next().unwrap();
    assert_eq!(first.to_display_string(), "<KWconst `const` [1:1]>");
    assert_eq!(first.metadata.to_debug_string(), "[main:1:1]");
    assert_eq!(TokenKind::Primitive(PrimitiveType::Float32).to_display_string(), "Primitive(\"f32\")");
    assert_eq!(TokenKind::ClosedCurly.to_display_string(), "ClosedCurly");
}

#[test]
fn stream_text_is_front_token_then_rest() {
    let mut ts = tok_run(&[("main", "let a;\n")], "main");
    let whole = ts.to_display_string();
    let front = ts.next().unwrap();
    let rest = ts.to_display_string();
    assert_eq!(whole, front.to_display_string() + "\n" + rest.as_str());
}

#[test]
fn comment_lines_give_no_tokens() {
    let mut ts = tok_run(&[("main", "let // note\nx;\n// all of it\n")], "main");
    let v = tok_all(&mut ts);
    assert_eq!(v.len(), 4);
    tok_check(&v[0], TokenKind::KWlet, "let", "main", 1, 1);
    tok_check(&v[1], TokenKind::Identifer, "x", "main", 2, 1);
    tok_check(&v[2], TokenKind::SemiColon, ";", "main", 2, 2);
    assert_eq!(v[3].kind, TokenKind::EOF);
}

#[test]
fn lone_slash_has_empty_text() {
    let mut ts = tok_run(&[("main", "a / b;")], "main");
    let v = tok_all(&mut ts);
    assert_eq!(v.len(), 5);
    tok_check(&v[0], TokenKind::Identifer, "a", "main", 1, 1);
    tok_check(&v[1], TokenKind::Slash, "", "main", 1, 3);
    tok_check(&v[2], TokenKind::Identifer, "b", "main", 1, 5);
    tok_check(&v[3], TokenKind::SemiColon, ";", "main", 1, 6);
}

#[test]
fn two_character_operators() {
    let mut ts = tok_run(&[("main", "<= >= == |= -> = < > | -;")], "main");
    let v = tok_all(&mut ts);
    assert_eq!(v.len(), 12);
    tok_check(&v[0], TokenKind::LesserEq, "<", "main", 1, 1);
    tok_check(&v[1], TokenKind::GreaterEq, ">", "main", 1, 4);
    tok_check(&v[2], TokenKind::Compare, "=", "main", 1, 7);
    tok_check(&v[3], TokenKind::DoublePipe, "|", "main", 1, 10);
    tok_check(&v[4], TokenKind::Arrow, "-", "main", 1, 13);
    tok_check(&v[5], TokenKind::Assign, "=", "main", 1, 16);
    tok_check(&v[6], TokenKind::Lesser, "<", "main", 1, 18);
    tok_check(&v[7], TokenKind::Greater, ">", "main", 1, 20);
    tok_check(&v[8], TokenKind::Pipe, "|", "main", 1, 22);
    tok_check(&v[9], TokenKind::Dash, "-", "main", 1, 24);
    tok_check(&v[10], TokenKind::SemiColon, ";", "main", 1, 25);
}

#[test]
fn operator_pairs_the_compiler_cannot_read() {
    let src = tok_source(&[("a", "x >> y;"), ("b", "x => y;")]);
    let ts = TokenStream::new();
    assert!(matches!(ts.next_file_request("a", &src), FileRequest::Unsupported));
    assert!(matches!(ts.next_file_request("b", &src), FileRequest::Unsupported));
}

#[test]
fn string_literal_with_escape() {
    let mut ts = tok_run(&[("main", "s = \"a\\tb\";\n")], "main");
    let v = tok_all(&mut ts);
    assert_eq!(v.len(), 5);
    tok_check(&v[0], TokenKind::Identifer, "s", "main", 1, 1);
    tok_check(&v[1], TokenKind::Assign, "=", "main", 1, 3);
    tok_check(&v[2], TokenKind::StringLiteral, "a\tb", "main", 1, 5);
    tok_check(&v[3], TokenKind::SemiColon, ";", "main", 1, 11);
    assert_eq!(v[4].kind, TokenKind::EOF);
}

#[test]
fn the_character_after_a_string_is_read() {
    let mut ts = tok_run(&[("m.ansl", "printf(\"var2 is %s\",itoa(var2));")], "m.ansl");
    let v = tok_all(&mut ts);
    let kinds: Vec<TokenKind> = v.iter().map(|t| t.kind).collect();
    assert_eq!(
        kinds,
        vec![
            TokenKind::Identifer,
            TokenKind::OpenParenth,
            TokenKind::StringLiteral,
            TokenKind::Comma,
            TokenKind::Identifer,
            TokenKind::OpenParenth,
            TokenKind::Identifer,
            TokenKind::ClosedParenth,
            TokenKind::ClosedParenth,
            TokenKind::SemiColon,
            TokenKind::EOF,
        ]
    );
    tok_check(&v[2], TokenKind::StringLiteral, "var2 is %s", "m.ansl", 1, 8);
    tok_check(&v[3], TokenKind::Comma, ",", "m.ansl", 1, 20);
    tok_check(&v[4], TokenKind::Identifer, "itoa", "m.ansl", 1, 21);
}

#[test]
fn invalid_escape_is_an_error() {
    let src = tok_source(&[("main", "s = \"\\q\";\n")]);
    let mut ts = TokenStream::new();
    let e = ts.tokenize_source_tree("main", &src).unwrap_err();
    assert_eq!(e.error(), "invalid escape sequence >>\"\\q\"<< ");
    assert!(e.formatted().is_none());
    assert_eq!(e.to_display_string(), "Error in compilation: invalid escape sequence >>\"\\q\"<< \n\t");
    assert_eq!(ts.len(), 0);
}

#[test]
fn tokens_before_an_error_line_are_kept() {
    let src = tok_source(&[("main", "a;\n\"\\q\"\n")]);
    let mut ts = TokenStream::new();
    assert!(ts.tokenize_source_tree("main", &src).is_err());
    let v = tok_all(&mut ts);
    assert_eq!(v.len(), 2);
    tok_check(&v[0], TokenKind::Identifer, "a", "main", 1, 1);
    tok_check(&v[1], TokenKind::SemiColon, ";", "main", 1, 2);
}

#[test]
fn include_by_absolute_path() {
    let files = [("main", "#include absolute lib;\nlet y;\n"), ("lib", "let x;\n")];
    let only_main = tok_source(&files[..1]);
    let ts0 = TokenStream::new();
    match ts0.next_file_request("main", &only_main) {
        FileRequest::Load(p) => assert_eq!(p, "lib"),
        _ => panic!("expected a file request"),
    }
    let mut ts = tok_run(&files, "main");
    assert!(ts.source().get("lib").is_some());
    assert!(ts.source().get("main").is_some());
    let v = tok_all(&mut ts);
    assert_eq!(v.len(), 7);
    tok_check(&v[0], TokenKind::KWlet, "let", "lib", 1, 1);
    tok_check(&v[1], TokenKind::Identifer, "x", "lib", 1, 5);
    tok_check(&v[2], TokenKind::SemiColon, ";", "lib", 1, 6);
    tok_check(&v[3], TokenKind::KWlet, "let", "main", 2, 1);
    tok_check(&v[4], TokenKind::Identifer, "y", "main", 2, 5);
    tok_check(&v[5], TokenKind::SemiColon, ";", "main", 2, 6);
    assert_eq!(v[6].kind, TokenKind::EOF);
}

#[test]
fn include_alone_gives_the_included_tokens() {
    let mut ts = tok_run(&[("main", "#include absolute lib;"), ("lib", "x;")], "main");
    let v = tok_all(&mut ts);
    assert_eq!(v.len(), 3);
    tok_check(&v[0], TokenKind::Identifer, "x", "lib", 1, 1);
    tok_check(&v[1], TokenKind::SemiColon, ";", "lib", 1, 2);
}

#[test]
fn include_from_the_system_library() {
    let only_main = tok_source(&[("main", "#include system io;\n")]);
    let ts0 = TokenStream::new();
    match ts0.next_file_request("main", &only_main) {
        FileRequest::Load(p) => assert_eq!(p, "~/.ansl/io.ansl"),
        _ => panic!("expected a file request"),
    }
    let mut ts = tok_run(&[("main", "#include system io;\n"), ("~/.ansl/io.ansl", "z;")], "main");
    let v = tok_all(&mut ts);
    assert_eq!(v.len(), 3);
    tok_check(&v[0], TokenKind::Identifer, "z", "~/.ansl/io.ansl", 1, 1);
}

#[test]
fn unsupported_includes() {
    let src = tok_source(&[("main", "#include module m;\n"), ("self", "#include absolute self;\n")]);
    let ts = TokenStream::new();
    assert!(matches!(ts.next_file_request("main", &src), FileRequest::Unsupported));
    assert!(matches!(ts.next_file_request("self", &src), FileRequest::Unsupported));
}

#[test]
fn unexpected_preprocessor_token() {
    let src = tok_source(&[("main", "#let;\n")]);
    let mut ts = TokenStream::new();
    let e = ts.tokenize_source_tree("main", &src).unwrap_err();
    assert_eq!(e.error(), "unexpected token in preprocessor command");
    assert_eq!(e.formatted().unwrap(), "#let;\n\t\t  ^~~");
    assert_eq!(
        e.to_display_string(),
        "Error in compilation: unexpected token in preprocessor command >> <KWlet `let` [1:2]> :\n\tat 1:2 in file main:\n\t\t #let;\n\t\t  ^~~"
    );
}

#[test]
fn unknown_include_location() {
    let src = tok_source(&[("main", "#include foo x;\n")]);
    let mut ts = TokenStream::new();
    let e = ts.tokenize_source_tree("main", &src).unwrap_err();
    assert_eq!(e.error(), "include subword not recognized");
    assert_eq!(e.formatted().unwrap(), "#include foo x;\n\t\t          ^~~");
}

#[test]
fn missing_entry_file() {
    let src = Source::new();
    let mut ts = TokenStream::new();
    match ts.next_file_request("nope", &src) {
        FileRequest::Load(p) => assert_eq!(p, "nope"),
        _ => panic!("expected a file request"),
    }
    let e = ts.tokenize_source_tree("nope", &src).unwrap_err();
    assert_eq!(e.error(), "could not open nope");
    assert_eq!(ts.len(), 0);
}

#[test]
fn word_continues_over_a_line_end() {
    let mut ts = tok_run(&[("main", "ab\ncd;\n")], "main");
    let v = tok_all(&mut ts);
    assert_eq!(v.len(), 3);
    tok_check(&v[0], TokenKind::Identifer, "abcd", "main", 2, 1);
    tok_check(&v[1], TokenKind::SemiColon, ";", "main", 2, 3);
}

#[test]
fn numbers_apostrophes_and_punctuation() {
    let mut ts = tok_run(&[("main", "42abc '{}();")], "main");
    let v = tok_all(&mut ts);
    assert_eq!(v.len(), 8);
    tok_check(&v[0], TokenKind::NumberLiteral, "42abc", "main", 1, 1);
    tok_check(&v[1], TokenKind::Apostro, "&", "main", 1, 7);
    tok_check(&v[2], TokenKind::OpenCurly, "{", "main", 1, 8);
    tok_check(&v[3], TokenKind::ClosedCurly, "}", "main", 1, 9);
    tok_check(&v[4], TokenKind::OpenParenth, "(", "main", 1, 10);
    tok_check(&v[5], TokenKind::ClosedParenth, ")", "main", 1, 11);
    tok_check(&v[6], TokenKind::SemiColon, ";", "main", 1, 12);
}

#[test]
fn peek_next_and_eof() {
    let mut ts = tok_run(&[("main", "x;")], "main");
    assert_eq!(ts.len(), 3);
    assert_eq!(ts.kind_at(1), TokenKind::SemiColon);
    assert!(ts.peek_is(TokenKind::Identifer));
    assert!(!ts.eof());
    let peeked = ts.peek().unwrap().lexeme.clone();
    let taken = ts.next().unwrap();
    assert_eq!(peeked, taken.lexeme);
    assert!(taken.is(TokenKind::Identifer));
    assert!(!taken.is(TokenKind::SemiColon));
    assert_eq!(ts.next().unwrap().kind, TokenKind::SemiColon);
    assert!(ts.eof());
    assert_eq!(ts.next().unwrap().kind, TokenKind::EOF);
    assert!(ts.next().is_none());
    assert!(ts.peek().is_none());
    assert!(!ts.peek_is(TokenKind::EOF));
    assert!(!ts.eof());
}

#[test]
fn keywords_and_primitive_names() {
    assert_eq!(match_keyword("while"), Some(TokenKind::KWwhile));
    assert_eq!(match_keyword("static"), Some(TokenKind::KWstatic));
    assert_eq!(match_keyword("include"), Some(TokenKind::Include));
    assert_eq!(match_keyword("u64"), Some(TokenKind::Primitive(PrimitiveType::Unsigned64)));
    assert_eq!(match_keyword("i16"), Some(TokenKind::Primitive(PrimitiveType::Signed16)));
    assert_eq!(match_keyword("f32"), Some(TokenKind::Primitive(PrimitiveType::Float32)));
    assert_eq!(match_keyword("foo"), None);
    assert_eq!(match_keyword(""), None);
    let mut ts = tok_run(&[("main", "i32 u16;")], "main");
    let v = tok_all(&mut ts);
    assert_eq!(v[0].kind, TokenKind::Primitive(PrimitiveType::Signed32));
    assert_eq!(v[1].kind, TokenKind::Primitive(PrimitiveType::Unsigned16));
}

#[test]
fn source_files_and_lines() {
    let f = SourceFile::new("f", "a\r\nb\n\nc");
    assert_eq!(f.file_name(), "f");
    assert_eq!(f.lines().clone(), vec!["a".to_string(), "b".to_string(), String::new(), "c".to_string()]);
    assert_eq!(f.get_line(2).unwrap(), "b");
    assert!(f.get_line(0).is_none());
    assert!(f.get_line(5).is_none());
    assert_eq!(f.to_debug_string(), "<source file :: f>");
    assert_eq!(SourceFile::new("e", "").lines().len(), 0);
    assert_eq!(SourceFile::new("e", "x\n").lines().len(), 1);
}

#[test]
fn source_add_replace_merge() {
    let mut a = Source::new();
    a.add_file(SourceFile::new("f", "old\n"));
    a.add_file(SourceFile::new("f", "new\n"));
    assert_eq!(a.get_line("f", 1).unwrap(), "new");
    assert!(a.get_line("f", 2).is_none());
    assert!(a.get_line("g", 1).is_none());
    let mut b = Source::new();
    b.add_file(SourceFile::new("f", "other\n"));
    b.add_file(SourceFile::new("g", "gee\n"));
    a.merge(b);
    assert_eq!(a.get_line("f", 1).unwrap(), "other");
    assert_eq!(a.get_line("g", 1).unwrap(), "gee");
    let d = a.duplicate();
    assert_eq!(d.get("g").unwrap().lines().len(), 1);
}

#[test]
fn words_take_letters_and_digits_of_any_script() {
    let mut ts = tok_run(&[("main", "caf\u{e9}_9 a-b;")], "main");
    let v = tok_all(&mut ts);
    assert_eq!(v.len(), 6);
    tok_check(&v[0], TokenKind::Identifer, "caf\u{e9}_9", "main", 1, 1);
    tok_check(&v[1], TokenKind::Identifer, "a", "main", 1, 8);
    tok_check(&v[2], TokenKind::Dash, "-", "main", 1, 9);
    tok_check(&v[3], TokenKind::Identifer, "b", "main", 1, 10);
    tok_check(&v[4], TokenKind::SemiColon, ";", "main", 1, 11);
}

#[test]
fn failed_read_is_reported_with_its_error() {
    let mut src = tok_source(&[("main", "a;\n#include absolute lib;\n")]);
    let ts0 = TokenStream::new();
    assert!(matches!(ts0.next_file_request("main", &src), FileRequest::Load(_)));
    src.record_failure("lib", "permission denied");
    assert_eq!(src.failure("lib").unwrap(), "permission denied");
    assert!(src.failure("main").is_none());
    assert!(matches!(ts0.next_file_request("main", &src), FileRequest::Ready));
    let mut ts = TokenStream::new();
    let e = ts.tokenize_source_tree("main", &src).unwrap_err();
    assert_eq!(e.error(), "could not open lib :: permission denied");
    assert_eq!(ts.len(), 2);
    let mut missing = Source::new();
    missing.record_failure("nope", "not found");
    let mut ts2 = TokenStream::new();
    let e2 = ts2.tokenize_source_tree("nope", &missing).unwrap_err();
    assert_eq!(e2.error(), "could not open nope :: not found");
    assert_eq!(ts2.len(), 0);
}

#[test]
fn include_line_with_several_names_between_other_lines() {
    let files = [("main", "let a;\n#include absolute x y;\nb;\n"), ("x", "p;"), ("y", "q;")];
    let mut ts = tok_run(&files, "main");
    let v = tok_all(&mut ts);
    assert_eq!(v.len(), 10);
    tok_check(&v[0], TokenKind::KWlet, "let", "main", 1, 1);
    tok_check(&v[1], TokenKind::Identifer, "a", "main", 1, 5);
    tok_check(&v[2], TokenKind::SemiColon, ";", "main", 1, 6);
    tok_check(&v[3], TokenKind::Identifer, "p", "x", 1, 1);
    tok_check(&v[4], TokenKind::SemiColon, ";", "x", 1, 2);
    tok_check(&v[5], TokenKind::Identifer, "q", "y", 1, 1);
    tok_check(&v[6], TokenKind::SemiColon, ";", "y", 1, 2);
    tok_check(&v[7], TokenKind::Identifer, "b", "main", 3, 1);
    tok_check(&v[8], TokenKind::SemiColon, ";", "main", 3, 2);
    assert_eq!(v[9].kind, TokenKind::EOF);
}

#[test]
fn keyword_after_a_no_break_space_is_trimmed() {
    let mut ts = tok_run(&[("main", "\u{a0}let x;")], "main");
    let v = tok_all(&mut ts);
    assert_eq!(v.len(), 4);
    tok_check(&v[0], TokenKind::KWlet, "\u{a0}let", "main", 1, 1);
    tok_check(&v[1], TokenKind::Identifer, "x", "main", 1, 6);
    tok_check(&v[2], TokenKind::SemiColon, ";", "main", 1, 7);
}

#[test]
fn operator_pairs_inside_strings_and_comments_are_read() {
    let mut ts = tok_run(&[("main", "s = \"a >> b\"; // c => d\n")], "main");
    let v = tok_all(&mut ts);
    assert_eq!(v.len(), 5);
    tok_check(&v[2], TokenKind::StringLiteral, "a >> b", "main", 1, 5);
    tok_check(&v[3], TokenKind::SemiColon, ";", "main", 1, 13);
}
