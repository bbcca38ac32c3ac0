use ansl::preprocessor::{tokenize, Metadata, TokenKind};

#[test]
fn metadata_fields() {
    let m = Metadata::new("file".to_string(), "line".to_string(), 3, 7);
    assert_eq!(m.file(), "file");
    assert_eq!(m.line(), "line");
    assert_eq!(m.line_number(), 3);
    assert_eq!(m.line_column(), 7);
}

#[test]
fn identifies_lexemes() {
    assert_eq!(TokenKind::identify("#include"), TokenKind::PreProcessorInstruction);
    assert_eq!(TokenKind::identify("\"s\""), TokenKind::StringLiteral);
    assert_eq!(TokenKind::identify("'c'"), TokenKind::CharLiteral);
    assert_eq!(TokenKind::identify("&x"), TokenKind::Pointer);
    assert_eq!(TokenKind::identify("12"), TokenKind::NumberLiteral);
    assert_eq!(TokenKind::identify("//"), TokenKind::Comment);
    assert_eq!(TokenKind::identify("{"), TokenKind::ECObrace);
    assert_eq!(TokenKind::identify(")"), TokenKind::ECCparen);
    assert_eq!(TokenKind::identify(";"), TokenKind::Delimiter);
    assert_eq!(TokenKind::identify("fn"), TokenKind::KWfn);
    assert_eq!(TokenKind::identify("enum"), TokenKind::KWenum);
    assert_eq!(TokenKind::identify("->"), TokenKind::Arrow);
    assert_eq!(TokenKind::identify("!="), TokenKind::OPnotequal);
    assert_eq!(TokenKind::identify("&&"), TokenKind::Pointer);
    assert_eq!(TokenKind::identify("^"), TokenKind::OPxor);
    assert_eq!(TokenKind::identify("foo"), TokenKind::Identifier);
}

#[test]
fn tokenizes_lexed_lines() {
    let m = Metadata::new(0usize, 0usize, 1, 1);
    let src: Vec<Vec<(String, Metadata<usize>)>> = vec![
        vec![("#include".to_string(), m.clone()), ("stdio".to_string(), m.clone())],
        vec![("let".to_string(), m.clone()), ("//".to_string(), m.clone()), ("x".to_string(), m.clone())],
        vec![("y".to_string(), m.clone())],
    ];
    let ts = tokenize(&src);
    let kinds: Vec<TokenKind> = ts.tokens().iter().map(|t| t.kind()).collect();
    assert_eq!(
        kinds,
        vec![
            TokenKind::PreProcessorInstruction,
            TokenKind::PreProcessorArgument,
            TokenKind::KWlet,
            TokenKind::PreProcessorArgument,
        ]
    );
    assert_eq!(ts.tokens()[3].lexeme(), "y");
}

#[test]
fn plain_source_keeps_identifiers() {
    let m = Metadata::new(0usize, 0usize, 1, 1);
    let src: Vec<Vec<(String, Metadata<usize>)>> =
        vec![vec![("a".to_string(), m.clone()), ("=".to_string(), m.clone()), ("1".to_string(), m.clone())]];
    let ts = tokenize(&src);
    let kinds: Vec<TokenKind> = ts.tokens().iter().map(|t| t.kind()).collect();
    assert_eq!(kinds, vec![TokenKind::Identifier, TokenKind::OPassign, TokenKind::NumberLiteral]);
}

#[test]
fn tokenizes_line_by_line_up_to_comments() {
    let m = Metadata::new(0usize, 0usize, 1, 1);
    let src: Vec<Vec<(String, Metadata<usize>)>> = vec![
        vec![("x".to_string(), m.clone()), ("//".to_string(), m.clone()), ("y".to_string(), m.clone())],
        vec![("fn".to_string(), m.clone()), ("{".to_string(), m.clone())],
    ];
    let ts = tokenize(&src);
    let kinds: Vec<TokenKind> = ts.tokens().iter().map(|t| t.kind()).collect();
    assert_eq!(kinds, vec![TokenKind::Identifier, TokenKind::KWfn, TokenKind::ECObrace]);
}
