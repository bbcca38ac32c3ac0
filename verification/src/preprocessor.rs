//! Where a lexeme stands, and the classification of lexemes into preprocessor tokens.
use vstd::prelude::*;
use crate::text::str_is;

verus! {

/// Where a lexeme stands: its file and line (as `S`), line number and column.
#[derive(Debug, Clone)]
pub struct Metadata<S> {
    file: S,
    line: S,
    line_number: usize,
    line_column: usize,
}

impl<S> Metadata<S> {
    pub fn new(file: S, line: S, line_number: usize, line_column: usize) -> (r: Self)
        ensures
            r.fields() == (file, line, line_number, line_column),
    {
        Metadata { file, line, line_column, line_number }
    }

    /// The file, the line, the line number and the column.
    pub closed spec fn fields(&self) -> (S, S, usize, usize) {
        (self.file, self.line, self.line_number, self.line_column)
    }

    pub fn file(&self) -> (r: &S)
        ensures
            *r == self.fields().0,
    {
        &self.file
    }

    pub fn line(&self) -> (r: &S)
        ensures
            *r == self.fields().1,
    {
        &self.line
    }

    pub fn line_number(&self) -> (r: usize)
        ensures
            r == self.fields().2,
    {
        self.line_number
    }

    pub fn line_column(&self) -> (r: usize)
        ensures
            r == self.fields().3,
    {
        self.line_column
    }
}


/// The kinds of lexeme that the preprocessor tells apart.
#[derive(Debug, Clone, Copy, PartialEq, Eq, Structural)]
pub enum TokenKind {
    PreProcessorInstruction,
    PreProcessorArgument,
    Comment,
    ECObrace,
    ECCbrace,
    ECOparen,
    ECCparen,
    ECObracket,
    ECCbracket,
    Delimiter,
    StringLiteral,
    CharLiteral,
    NumberLiteral,
    FloatLiteral,
    Identifier,
    Pointer,
    KWfn,
    KWlet,
    KWreturn,
    KWif,
    KWelse,
    KWmatch,
    KWwhile,
    KWfor,
    KWin,
    KWbreak,
    KWcontinue,
    KWstruct,
    KWenum,
    OPassign,
    OPplus,
    OPsub,
    OPmult,
    OPDiv,
    OPmod,
    OPgreater,
    OPlesser,
    OPgreatereq,
    OPlessereq,
    OPequal,
    OPnotequal,
    OPand,
    OPor,
    OPnot,
    OPxor,
    Arrow,
    Colon,
    Dot,
    Comma,
}

/// The kind of the lexeme `lexeme` (not empty): by its first character for preprocessor
/// instructions, string and character literals, pointers and numbers; otherwise by the whole
/// lexeme, an identifier when it is none of the symbols and keywords.
pub open spec fn identify(lexeme: Seq<char>) -> TokenKind {
    let first = lexeme[0];
    if first == '#' {
        TokenKind::PreProcessorInstruction
    } else if first == '"' {
        TokenKind::StringLiteral
    } else if first == '\'' {
        TokenKind::CharLiteral
    } else if first == '&' {
        TokenKind::Pointer
    } else if '0' <= first && first <= '9' {
        TokenKind::NumberLiteral
    } else {
        lexeme_kind(lexeme)
    }
}

/// The kind of a lexeme by its whole text.
pub open spec fn lexeme_kind(lexeme: Seq<char>) -> TokenKind {
    if lexeme == seq!['/', '/'] {
        TokenKind::Comment
    } else if lexeme == seq!['{'] {
        TokenKind::ECObrace
    } else if lexeme == seq!['}'] {
        TokenKind::ECCbrace
    } else if lexeme == seq!['('] {
        TokenKind::ECOparen
    } else if lexeme == seq![')'] {
        TokenKind::ECCparen
    } else if lexeme == seq!['['] {
        TokenKind::ECObracket
    } else if lexeme == seq![']'] {
        TokenKind::ECCbracket
    } else if lexeme == seq![';'] {
        TokenKind::Delimiter
    } else {
        word_kind(lexeme)
    }
}

/// The kind of a keyword or operator lexeme.
pub open spec fn word_kind(lexeme: Seq<char>) -> TokenKind {
    if lexeme == seq!['f', 'n'] {
        TokenKind::KWfn
    } else if lexeme == seq!['l', 'e', 't'] {
        TokenKind::KWlet
    } else if lexeme == seq!['r', 'e', 't', 'u', 'r', 'n'] {
        TokenKind::KWreturn
    } else if lexeme == seq!['i', 'f'] {
        TokenKind::KWif
    } else if lexeme == seq!['e', 'l', 's', 'e'] {
        TokenKind::KWelse
    } else if lexeme == seq!['m', 'a', 't', 'c', 'h'] {
        TokenKind::KWmatch
    } else if lexeme == seq!['w', 'h', 'i', 'l', 'e'] {
        TokenKind::KWwhile
    } else if lexeme == seq!['f', 'o', 'r'] {
        TokenKind::KWfor
    } else if lexeme == seq!['i', 'n'] {
        TokenKind::KWin
    } else if lexeme == seq!['b', 'r', 'e', 'a', 'k'] {
        TokenKind::KWbreak
    } else if lexeme == seq!['c', 'o', 'n', 't', 'i', 'n', 'u', 'e'] {
        TokenKind::KWcontinue
    } else if lexeme == seq!['s', 't', 'r', 'u', 'c', 't'] {
        TokenKind::KWstruct
    } else if lexeme == seq!['e', 'n', 'u', 'm'] {
        TokenKind::KWenum
    } else {
        operator_kind(lexeme)
    }
}

/// The kind of an operator or punctuation lexeme.
pub open spec fn operator_kind(lexeme: Seq<char>) -> TokenKind {
    if lexeme == seq!['='] {
        TokenKind::OPassign
    } else if lexeme == seq!['+'] {
        TokenKind::OPplus
    } else if lexeme == seq!['-'] {
        TokenKind::OPsub
    } else if lexeme == seq!['*'] {
        TokenKind::OPmult
    } else if lexeme == seq!['/'] {
        TokenKind::OPDiv
    } else if lexeme == seq!['%'] {
        TokenKind::OPmod
    } else if lexeme == seq!['>'] {
        TokenKind::OPgreater
    } else if lexeme == seq!['<'] {
        TokenKind::OPlesser
    } else if lexeme == seq!['>', '='] {
        TokenKind::OPgreatereq
    } else if lexeme == seq!['<', '='] {
        TokenKind::OPlessereq
    } else if lexeme == seq!['=', '='] {
        TokenKind::OPequal
    } else if lexeme == seq!['!', '='] {
        TokenKind::OPnotequal
    } else if lexeme == seq!['&', '&'] {
        TokenKind::OPand
    } else if lexeme == seq!['|'] {
        TokenKind::OPor
    } else if lexeme == seq!['!'] {
        TokenKind::OPnot
    } else if lexeme == seq!['^'] {
        TokenKind::OPxor
    } else if lexeme == seq!['-', '>'] {
        TokenKind::Arrow
    } else if lexeme == seq![':'] {
        TokenKind::Colon
    } else if lexeme == seq!['.'] {
        TokenKind::Dot
    } else if lexeme == seq![','] {
        TokenKind::Comma
    } else {
        TokenKind::Identifier
    }
}

impl TokenKind {
    /// The kind of the lexeme `lexeme`, which must not be empty.
    pub fn identify(lexeme: &str) -> (r: TokenKind)
        requires
            lexeme@.len() > 0,
        ensures
            r == identify(lexeme@),
    {
        let first = lexeme.get_char(0);
        if first == '#' {
            TokenKind::PreProcessorInstruction
        } else if first == '"' {
            TokenKind::StringLiteral
        } else if first == '\'' {
            TokenKind::CharLiteral
        } else if first == '&' {
            TokenKind::Pointer
        } else if '0' <= first && first <= '9' {
            TokenKind::NumberLiteral
        } else {
            Self::lexeme_kind(lexeme)
        }
    }

    fn lexeme_kind(lexeme: &str) -> (r: TokenKind)
        ensures
            r == lexeme_kind(lexeme@),
    {
        if str_is_pair(lexeme, '/', '/') {
            TokenKind::Comment
        } else if str_is_char(lexeme, '{') {
            TokenKind::ECObrace
        } else if str_is_char(lexeme, '}') {
            TokenKind::ECCbrace
        } else if str_is_char(lexeme, '(') {
            TokenKind::ECOparen
        } else if str_is_char(lexeme, ')') {
            TokenKind::ECCparen
        } else if str_is_char(lexeme, '[') {
            TokenKind::ECObracket
        } else if str_is_char(lexeme, ']') {
            TokenKind::ECCbracket
        } else if str_is_char(lexeme, ';') {
            TokenKind::Delimiter
        } else {
            Self::word_kind(lexeme)
        }
    }

    fn word_kind(lexeme: &str) -> (r: TokenKind)
        ensures
            r == word_kind(lexeme@),
    {
        if str_is(lexeme, &['f', 'n']) {
            TokenKind::KWfn
        } else if str_is(lexeme, &['l', 'e', 't']) {
            TokenKind::KWlet
        } else if str_is(lexeme, &['r', 'e', 't', 'u', 'r', 'n']) {
            TokenKind::KWreturn
        } else if str_is(lexeme, &['i', 'f']) {
            TokenKind::KWif
        } else if str_is(lexeme, &['e', 'l', 's', 'e']) {
            TokenKind::KWelse
        } else if str_is(lexeme, &['m', 'a', 't', 'c', 'h']) {
            TokenKind::KWmatch
        } else if str_is(lexeme, &['w', 'h', 'i', 'l', 'e']) {
            TokenKind::KWwhile
        } else if str_is(lexeme, &['f', 'o', 'r']) {
            TokenKind::KWfor
        } else if str_is(lexeme, &['i', 'n']) {
            TokenKind::KWin
        } else if str_is(lexeme, &['b', 'r', 'e', 'a', 'k']) {
            TokenKind::KWbreak
        } else if str_is(lexeme, &['c', 'o', 'n', 't', 'i', 'n', 'u', 'e']) {
            TokenKind::KWcontinue
        } else if str_is(lexeme, &['s', 't', 'r', 'u', 'c', 't']) {
            TokenKind::KWstruct
        } else if str_is(lexeme, &['e', 'n', 'u', 'm']) {
            TokenKind::KWenum
        } else {
            Self::operator_kind(lexeme)
        }
    }

    fn operator_kind(lexeme: &str) -> (r: TokenKind)
        ensures
            r == operator_kind(lexeme@),
    {
        if str_is_char(lexeme, '=') {
            TokenKind::OPassign
        } else if str_is_char(lexeme, '+') {
            TokenKind::OPplus
        } else if str_is_char(lexeme, '-') {
            TokenKind::OPsub
        } else if str_is_char(lexeme, '*') {
            TokenKind::OPmult
        } else if str_is_char(lexeme, '/') {
            TokenKind::OPDiv
        } else if str_is_char(lexeme, '%') {
            TokenKind::OPmod
        } else if str_is_char(lexeme, '>') {
            TokenKind::OPgreater
        } else if str_is_char(lexeme, '<') {
            TokenKind::OPlesser
        } else if str_is_pair(lexeme, '>', '=') {
            TokenKind::OPgreatereq
        } else if str_is_pair(lexeme, '<', '=') {
            TokenKind::OPlessereq
        } else if str_is_pair(lexeme, '=', '=') {
            TokenKind::OPequal
        } else if str_is_pair(lexeme, '!', '=') {
            TokenKind::OPnotequal
        } else if str_is_pair(lexeme, '&', '&') {
            TokenKind::OPand
        } else if str_is_char(lexeme, '|') {
            TokenKind::OPor
        } else if str_is_char(lexeme, '!') {
            TokenKind::OPnot
        } else if str_is_char(lexeme, '^') {
            TokenKind::OPxor
        } else if str_is_pair(lexeme, '-', '>') {
            TokenKind::Arrow
        } else if str_is_char(lexeme, ':') {
            TokenKind::Colon
        } else if str_is_char(lexeme, '.') {
            TokenKind::Dot
        } else if str_is_char(lexeme, ',') {
            TokenKind::Comma
        } else {
            TokenKind::Identifier
        }
    }
}


/// Whether `s` is the one character `c`.
fn str_is_char(s: &str, c: char) -> (r: bool)
    ensures
        r == (s@ == seq![c]),
{
    if s.unicode_len() == 1 && s.get_char(0) == c {
        assert(s@ =~= seq![c]);
        true
    } else {
        false
    }
}

/// Whether `s` is the two characters `a` and `b`.
fn str_is_pair(s: &str, a: char, b: char) -> (r: bool)
    ensures
        r == (s@ == seq![a, b]),
{
    if s.unicode_len() == 2 && s.get_char(0) == a && s.get_char(1) == b {
        assert(s@ =~= seq![a, b]);
        true
    } else {
        false
    }
}


/// A classified lexeme, borrowed from the lexed source.
#[derive(Debug)]
pub struct Token<'a, S> {
    kind: TokenKind,
    lexeme: &'a str,
    metadata: &'a Metadata<S>,
}

impl<'a, S> Token<'a, S> {
    /// The lexeme `lexeme` (not empty), classified.
    fn new(lexeme: &'a str, metadata: &'a Metadata<S>) -> (r: Self)
        requires
            lexeme@.len() > 0,
        ensures
            r.view() == (identify(lexeme@), lexeme@, metadata.fields()),
    {
        Token { lexeme, metadata, kind: TokenKind::identify(lexeme) }
    }

    /// The kind, the text and the place of the token.
    pub closed spec fn view(&self) -> (TokenKind, Seq<char>, (S, S, usize, usize)) {
        (self.kind, self.lexeme@, self.metadata.fields())
    }

    pub fn kind(&self) -> (r: TokenKind)
        ensures
            r == self.view().0,
    {
        self.kind
    }

    pub fn lexeme(&self) -> (r: &'a str)
        ensures
            r@ == self.view().1,
    {
        self.lexeme
    }

    pub fn metadata(&self) -> (r: &'a Metadata<S>)
        ensures
            r.fields() == self.view().2,
    {
        self.metadata
    }
}

/// Classified lexemes in order.
#[derive(Debug)]
pub struct TokenStream<'a, S> {
    inner: Vec<Token<'a, S>>,
}

impl<'a, S> TokenStream<'a, S> {
    fn new(inner: Vec<Token<'a, S>>) -> (r: Self)
        ensures
            r.inner@ == inner@,
    {
        TokenStream { inner }
    }

    /// The kinds, texts and places of the tokens.
    pub closed spec fn view(&self) -> Seq<(TokenKind, Seq<char>, (S, S, usize, usize))> {
        self.inner@.map_values(|t: Token<'a, S>| t.view())
    }

    pub fn tokens(&self) -> (r: &Vec<Token<'a, S>>)
        ensures
            r@.map_values(|t: Token<'a, S>| t.view()) == self.view(),
    {
        &self.inner
    }
}

/// One lexed item: its text and its place.
pub open spec fn item_view<S>(item: (String, Metadata<S>)) -> (Seq<char>, (S, S, usize, usize)) {
    (item.0@, item.1.fields())
}

/// The kind of a lexeme inside a preprocessor command or not: an identifier there is an
/// argument of the command.
pub open spec fn classified(lexeme: Seq<char>, inside: bool) -> TokenKind {
    if inside && identify(lexeme) == TokenKind::Identifier {
        TokenKind::PreProcessorArgument
    } else {
        identify(lexeme)
    }
}

/// The tokens of the items `items` of one line from the `j`th on, after `acc`: from a comment
/// on, nothing more of the line is kept; from a preprocessor instruction on, identifiers are
/// its arguments (to the end of the source). Also gives whether a preprocessor instruction has
/// been met.
pub open spec fn line_tokens<S>(
    items: Seq<(Seq<char>, (S, S, usize, usize))>,
    j: int,
    inside: bool,
    skip: bool,
    acc: Seq<(TokenKind, Seq<char>, (S, S, usize, usize))>,
) -> (Seq<(TokenKind, Seq<char>, (S, S, usize, usize))>, bool)
    decreases items.len() - j,
{
    if j < 0 || j >= items.len() {
        (acc, inside)
    } else {
        let kind = classified(items[j].0, inside);
        let skip2 = skip || kind == TokenKind::Comment;
        let inside2 = inside || kind == TokenKind::PreProcessorInstruction;
        line_tokens(
            items,
            j + 1,
            inside2,
            skip2,
            if skip2 { acc } else { acc.push((kind, items[j].0, items[j].1)) },
        )
    }
}

/// The tokens of the lines `lines` from the `k`th on, after `acc`.
pub open spec fn source_tokens<S>(
    lines: Seq<Seq<(Seq<char>, (S, S, usize, usize))>>,
    k: int,
    inside: bool,
    acc: Seq<(TokenKind, Seq<char>, (S, S, usize, usize))>,
) -> Seq<(TokenKind, Seq<char>, (S, S, usize, usize))>
    decreases lines.len() - k,
{
    if k < 0 || k >= lines.len() {
        acc
    } else {
        let (acc2, inside2) = line_tokens(lines[k], 0, inside, false, acc);
        source_tokens(lines, k + 1, inside2, acc2)
    }
}

pub open spec fn lines_view<S>(source_file: Seq<Vec<(String, Metadata<S>)>>) -> Seq<Seq<(Seq<char>, (S, S, usize, usize))>> {
    source_file.map_values(|l: Vec<(String, Metadata<S>)>| l@.map_values(|i: (String, Metadata<S>)| item_view(i)))
}

/// Classifies the lexemes of a lexed source, none of which may be empty.
pub fn tokenize<'a, S>(source_file: &'a Vec<Vec<(String, Metadata<S>)>>) -> (r: TokenStream<'a, S>)
    requires
        forall|k: int, j: int|
            0 <= k < source_file@.len() && 0 <= j < source_file@[k]@.len() ==> source_file@[k]@[j].0@.len() > 0,
    ensures
        r.view() == source_tokens(lines_view(source_file@), 0, false, Seq::empty()),
{
    let ghost lv = lines_view(source_file@);
    let mut stream: Vec<Token<'a, S>> = Vec::new();
    let mut inside_preprocessor = false;
    let mut k: usize = 0;
    assert(stream@.map_values(|t: Token<'a, S>| t.view()) =~= Seq::<(TokenKind, Seq<char>, (S, S, usize, usize))>::empty());
    while k < source_file.len()
        invariant
            k <= source_file@.len(),
            lv == lines_view(source_file@),
            forall|k: int, j: int|
                0 <= k < source_file@.len() && 0 <= j < source_file@[k]@.len() ==> source_file@[k]@[j].0@.len() > 0,
            source_tokens(lv, 0, false, Seq::empty()) == source_tokens(
                lv,
                k as int,
                inside_preprocessor,
                stream@.map_values(|t: Token<'a, S>| t.view()),
            ),
        decreases source_file@.len() - k,
    {
        let line = &source_file[k];
        let ghost items = lv[k as int];
        assert(items == line@.map_values(|i: (String, Metadata<S>)| item_view(i)));
        let ghost start = stream@.map_values(|t: Token<'a, S>| t.view());
        let ghost inside0 = inside_preprocessor;
        let mut skip_comment = false;
        let mut j: usize = 0;
        while j < line.len()
            invariant
                j <= line@.len(),
                items == line@.map_values(|i: (String, Metadata<S>)| item_view(i)),
                forall|j: int| 0 <= j < line@.len() ==> line@[j].0@.len() > 0,
                line_tokens(items, 0, inside0, false, start) == line_tokens(
                    items,
                    j as int,
                    inside_preprocessor,
                    skip_comment,
                    stream@.map_values(|t: Token<'a, S>| t.view()),
                ),
            decreases line@.len() - j,
        {
            let item = &line[j];
            assert(items[j as int] == item_view(*item));
            let tmp_token = Token::new(item.0.as_str(), &item.1);
            let token = if inside_preprocessor && tmp_token.kind == TokenKind::Identifier {
                Token { kind: TokenKind::PreProcessorArgument, lexeme: item.0.as_str(), metadata: &item.1 }
            } else {
                tmp_token
            };
            if token.kind == TokenKind::Comment {
                skip_comment = true;
            }
            if token.kind == TokenKind::PreProcessorInstruction {
                inside_preprocessor = true;
            }
            if !skip_comment {
                let ghost before = stream@.map_values(|t: Token<'a, S>| t.view());
                let ghost tv = token.view();
                stream.push(token);
                assert(stream@.map_values(|t: Token<'a, S>| t.view()) =~= before.push(tv));
            }
            j = j + 1;
        }
        k = k + 1;
    }
    TokenStream::new(stream)
}

/// The tokens of one lexed line read outside a preprocessor command: its items before the
/// first comment, each classified.
pub open spec fn plain_line_tokens<S>(
    items: Seq<(Seq<char>, (S, S, usize, usize))>,
) -> Seq<(TokenKind, Seq<char>, (S, S, usize, usize))>
    decreases items.len(),
{
    if items.len() == 0 || identify(items[0].0) == TokenKind::Comment {
        Seq::empty()
    } else {
        seq![(identify(items[0].0), items[0].0, items[0].1)] + plain_line_tokens(items.drop_first())
    }
}

/// The tokens of lexed lines read outside a preprocessor command, line after line.
pub open spec fn plain_source_tokens<S>(
    lines: Seq<Seq<(Seq<char>, (S, S, usize, usize))>>,
) -> Seq<(TokenKind, Seq<char>, (S, S, usize, usize))>
    decreases lines.len(),
{
    if lines.len() == 0 {
        Seq::empty()
    } else {
        plain_line_tokens(lines[0]) + plain_source_tokens(lines.drop_first())
    }
}

/// Lexemes that are not empty and do not start a preprocessor instruction.
pub open spec fn no_instruction<S>(items: Seq<(Seq<char>, (S, S, usize, usize))>) -> bool {
    forall|j: int| 0 <= j < items.len() ==> (#[trigger] items[j]).0.len() > 0 && items[j].0[0] != '#'
}

proof fn lemma_plain_line<S>(
    items: Seq<(Seq<char>, (S, S, usize, usize))>,
    j: int,
    skip: bool,
    acc: Seq<(TokenKind, Seq<char>, (S, S, usize, usize))>,
)
    requires
        no_instruction(items),
        0 <= j <= items.len(),
    ensures
        line_tokens(items, j, false, skip, acc) == (
            if skip { acc } else { acc + plain_line_tokens(items.skip(j)) },
            false,
        ),
    decreases items.len() - j,
{
    if j == items.len() {
        assert(items.skip(j) =~= Seq::<(Seq<char>, (S, S, usize, usize))>::empty());
        assert(acc + Seq::<(TokenKind, Seq<char>, (S, S, usize, usize))>::empty() =~= acc);
    } else {
        let x = items[j];
        assert(x.0[0] != '#');
        let kind = identify(x.0);
        assert(kind != TokenKind::PreProcessorInstruction);
        let skip2 = skip || kind == TokenKind::Comment;
        let acc2 = if skip2 { acc } else { acc.push((kind, x.0, x.1)) };
        lemma_plain_line(items, j + 1, skip2, acc2);
        assert(items.skip(j)[0] == x);
        assert(items.skip(j).drop_first() =~= items.skip(j + 1));
        if !skip2 {
            assert(acc2 + plain_line_tokens(items.skip(j + 1)) =~= acc + plain_line_tokens(items.skip(j)));
        } else if !skip {
            assert(acc + plain_line_tokens(items.skip(j)) =~= acc);
        }
    }
}

proof fn lemma_plain_source<S>(
    lines: Seq<Seq<(Seq<char>, (S, S, usize, usize))>>,
    k: int,
    acc: Seq<(TokenKind, Seq<char>, (S, S, usize, usize))>,
)
    requires
        forall|i: int| 0 <= i < lines.len() ==> no_instruction(#[trigger] lines[i]),
        0 <= k <= lines.len(),
    ensures
        source_tokens(lines, k, false, acc) == acc + plain_source_tokens(lines.skip(k)),
    decreases lines.len() - k,
{
    if k == lines.len() {
        assert(lines.skip(k) =~= Seq::<Seq<(Seq<char>, (S, S, usize, usize))>>::empty());
        assert(acc + Seq::<(TokenKind, Seq<char>, (S, S, usize, usize))>::empty() =~= acc);
    } else {
        lemma_plain_line(lines[k], 0, false, acc);
        assert(lines[k].skip(0) =~= lines[k]);
        let acc2 = acc + plain_line_tokens(lines[k]);
        lemma_plain_source(lines, k + 1, acc2);
        assert(lines.skip(k)[0] == lines[k]);
        assert(lines.skip(k).drop_first() =~= lines.skip(k + 1));
        assert(acc2 + plain_source_tokens(lines.skip(k + 1)) =~= acc + plain_source_tokens(lines.skip(k)));
    }
}

/// Classifying lexed lines with no preprocessor instruction goes line by line: each line
/// gives its lexemes before the first comment, each classified, with its own place.
pub proof fn law_tokenize_by_line<S>(lines: Seq<Seq<(Seq<char>, (S, S, usize, usize))>>)
    requires
        forall|i: int| 0 <= i < lines.len() ==> no_instruction(#[trigger] lines[i]),
    ensures
        source_tokens(lines, 0, false, Seq::empty()) == plain_source_tokens(lines),
{
    lemma_plain_source(lines, 0, Seq::empty());
    assert(lines.skip(0) =~= lines);
    assert(Seq::<(TokenKind, Seq<char>, (S, S, usize, usize))>::empty() + plain_source_tokens(lines)
        =~= plain_source_tokens(lines));
}


/// The one lexeme of each keyword, operator, bracket, comment and delimiter kind. (`&&` gives
/// no kind of its own: its first character marks a pointer.)
pub open spec fn kind_lexeme(k: TokenKind) -> Option<Seq<char>> {
    match k {
        TokenKind::Comment => Some(seq!['/', '/']),
        TokenKind::ECObrace => Some(seq!['{']),
        TokenKind::ECCbrace => Some(seq!['}']),
        TokenKind::ECOparen => Some(seq!['(']),
        TokenKind::ECCparen => Some(seq![')']),
        TokenKind::ECObracket => Some(seq!['[']),
        TokenKind::ECCbracket => Some(seq![']']),
        TokenKind::Delimiter => Some(seq![';']),
        TokenKind::KWfn => Some(seq!['f', 'n']),
        TokenKind::KWlet => Some(seq!['l', 'e', 't']),
        TokenKind::KWreturn => Some(seq!['r', 'e', 't', 'u', 'r', 'n']),
        TokenKind::KWif => Some(seq!['i', 'f']),
        TokenKind::KWelse => Some(seq!['e', 'l', 's', 'e']),
        TokenKind::KWmatch => Some(seq!['m', 'a', 't', 'c', 'h']),
        TokenKind::KWwhile => Some(seq!['w', 'h', 'i', 'l', 'e']),
        TokenKind::KWfor => Some(seq!['f', 'o', 'r']),
        TokenKind::KWin => Some(seq!['i', 'n']),
        TokenKind::KWbreak => Some(seq!['b', 'r', 'e', 'a', 'k']),
        TokenKind::KWcontinue => Some(seq!['c', 'o', 'n', 't', 'i', 'n', 'u', 'e']),
        TokenKind::KWstruct => Some(seq!['s', 't', 'r', 'u', 'c', 't']),
        TokenKind::KWenum => Some(seq!['e', 'n', 'u', 'm']),
        TokenKind::OPassign => Some(seq!['=']),
        TokenKind::OPplus => Some(seq!['+']),
        TokenKind::OPsub => Some(seq!['-']),
        TokenKind::OPmult => Some(seq!['*']),
        TokenKind::OPDiv => Some(seq!['/']),
        TokenKind::OPmod => Some(seq!['%']),
        TokenKind::OPgreater => Some(seq!['>']),
        TokenKind::OPlesser => Some(seq!['<']),
        TokenKind::OPgreatereq => Some(seq!['>', '=']),
        TokenKind::OPlessereq => Some(seq!['<', '=']),
        TokenKind::OPequal => Some(seq!['=', '=']),
        TokenKind::OPnotequal => Some(seq!['!', '=']),
        TokenKind::OPor => Some(seq!['|']),
        TokenKind::OPnot => Some(seq!['!']),
        TokenKind::OPxor => Some(seq!['^']),
        TokenKind::Arrow => Some(seq!['-', '>']),
        TokenKind::Colon => Some(seq![':']),
        TokenKind::Dot => Some(seq!['.']),
        TokenKind::Comma => Some(seq![',']),
        _ => None,
    }
}

proof fn lemma_identify_named_0(k: TokenKind)
    requires
        k == TokenKind::Comment || k == TokenKind::ECObrace || k == TokenKind::ECCbrace || k == TokenKind::ECOparen || k == TokenKind::ECCparen,
    ensures
        identify(kind_lexeme(k)->0) == k,
{
    match k {
        TokenKind::Comment => {
            let l = seq!['/', '/'];
            assert(l[0] != seq!['f', 'n'][0]);
            assert(l[0] != seq!['i', 'f'][0]);
            assert(l[0] != seq!['i', 'n'][0]);
            assert(l[0] != seq!['>', '='][0]);
            assert(l[0] != seq!['<', '='][0]);
            assert(l[0] != seq!['=', '='][0]);
            assert(l[0] != seq!['!', '='][0]);
            assert(l[0] != seq!['-', '>'][0]);
            assert(l[0] != seq!['&', '&'][0]);
            assert(identify(l) == TokenKind::Comment);
        },
        TokenKind::ECObrace => {
            let l = seq!['{'];
            assert(l[0] != seq!['}'][0]);
            assert(l[0] != seq!['('][0]);
            assert(l[0] != seq![')'][0]);
            assert(l[0] != seq!['['][0]);
            assert(l[0] != seq![']'][0]);
            assert(l[0] != seq![';'][0]);
            assert(l[0] != seq!['='][0]);
            assert(l[0] != seq!['+'][0]);
            assert(l[0] != seq!['-'][0]);
            assert(l[0] != seq!['*'][0]);
            assert(l[0] != seq!['/'][0]);
            assert(l[0] != seq!['%'][0]);
            assert(l[0] != seq!['>'][0]);
            assert(l[0] != seq!['<'][0]);
            assert(l[0] != seq!['|'][0]);
            assert(l[0] != seq!['!'][0]);
            assert(l[0] != seq!['^'][0]);
            assert(l[0] != seq![':'][0]);
            assert(l[0] != seq!['.'][0]);
            assert(l[0] != seq![','][0]);
            assert(identify(l) == TokenKind::ECObrace);
        },
        TokenKind::ECCbrace => {
            let l = seq!['}'];
            assert(l[0] != seq!['{'][0]);
            assert(l[0] != seq!['('][0]);
            assert(l[0] != seq![')'][0]);
            assert(l[0] != seq!['['][0]);
            assert(l[0] != seq![']'][0]);
            assert(l[0] != seq![';'][0]);
            assert(l[0] != seq!['='][0]);
            assert(l[0] != seq!['+'][0]);
            assert(l[0] != seq!['-'][0]);
            assert(l[0] != seq!['*'][0]);
            assert(l[0] != seq!['/'][0]);
            assert(l[0] != seq!['%'][0]);
            assert(l[0] != seq!['>'][0]);
            assert(l[0] != seq!['<'][0]);
            assert(l[0] != seq!['|'][0]);
            assert(l[0] != seq!['!'][0]);
            assert(l[0] != seq!['^'][0]);
            assert(l[0] != seq![':'][0]);
            assert(l[0] != seq!['.'][0]);
            assert(l[0] != seq![','][0]);
            assert(identify(l) == TokenKind::ECCbrace);
        },
        TokenKind::ECOparen => {
            let l = seq!['('];
            assert(l[0] != seq!['{'][0]);
            assert(l[0] != seq!['}'][0]);
            assert(l[0] != seq![')'][0]);
            assert(l[0] != seq!['['][0]);
            assert(l[0] != seq![']'][0]);
            assert(l[0] != seq![';'][0]);
            assert(l[0] != seq!['='][0]);
            assert(l[0] != seq!['+'][0]);
            assert(l[0] != seq!['-'][0]);
            assert(l[0] != seq!['*'][0]);
            assert(l[0] != seq!['/'][0]);
            assert(l[0] != seq!['%'][0]);
            assert(l[0] != seq!['>'][0]);
            assert(l[0] != seq!['<'][0]);
            assert(l[0] != seq!['|'][0]);
            assert(l[0] != seq!['!'][0]);
            assert(l[0] != seq!['^'][0]);
            assert(l[0] != seq![':'][0]);
            assert(l[0] != seq!['.'][0]);
            assert(l[0] != seq![','][0]);
            assert(identify(l) == TokenKind::ECOparen);
        },
        TokenKind::ECCparen => {
            let l = seq![')'];
            assert(l[0] != seq!['{'][0]);
            assert(l[0] != seq!['}'][0]);
            assert(l[0] != seq!['('][0]);
            assert(l[0] != seq!['['][0]);
            assert(l[0] != seq![']'][0]);
            assert(l[0] != seq![';'][0]);
            assert(l[0] != seq!['='][0]);
            assert(l[0] != seq!['+'][0]);
            assert(l[0] != seq!['-'][0]);
            assert(l[0] != seq!['*'][0]);
            assert(l[0] != seq!['/'][0]);
            assert(l[0] != seq!['%'][0]);
            assert(l[0] != seq!['>'][0]);
            assert(l[0] != seq!['<'][0]);
            assert(l[0] != seq!['|'][0]);
            assert(l[0] != seq!['!'][0]);
            assert(l[0] != seq!['^'][0]);
            assert(l[0] != seq![':'][0]);
            assert(l[0] != seq!['.'][0]);
            assert(l[0] != seq![','][0]);
            assert(identify(l) == TokenKind::ECCparen);
        },
        _ => {},
    }
}

proof fn lemma_identify_named_1(k: TokenKind)
    requires
        k == TokenKind::ECObracket || k == TokenKind::ECCbracket || k == TokenKind::Delimiter || k == TokenKind::KWfn || k == TokenKind::KWlet,
    ensures
        identify(kind_lexeme(k)->0) == k,
{
    match k {
        TokenKind::ECObracket => {
            let l = seq!['['];
            assert(l[0] != seq!['{'][0]);
            assert(l[0] != seq!['}'][0]);
            assert(l[0] != seq!['('][0]);
            assert(l[0] != seq![')'][0]);
            assert(l[0] != seq![']'][0]);
            assert(l[0] != seq![';'][0]);
            assert(l[0] != seq!['='][0]);
            assert(l[0] != seq!['+'][0]);
            assert(l[0] != seq!['-'][0]);
            assert(l[0] != seq!['*'][0]);
            assert(l[0] != seq!['/'][0]);
            assert(l[0] != seq!['%'][0]);
            assert(l[0] != seq!['>'][0]);
            assert(l[0] != seq!['<'][0]);
            assert(l[0] != seq!['|'][0]);
            assert(l[0] != seq!['!'][0]);
            assert(l[0] != seq!['^'][0]);
            assert(l[0] != seq![':'][0]);
            assert(l[0] != seq!['.'][0]);
            assert(l[0] != seq![','][0]);
            assert(identify(l) == TokenKind::ECObracket);
        },
        TokenKind::ECCbracket => {
            let l = seq![']'];
            assert(l[0] != seq!['{'][0]);
            assert(l[0] != seq!['}'][0]);
            assert(l[0] != seq!['('][0]);
            assert(l[0] != seq![')'][0]);
            assert(l[0] != seq!['['][0]);
            assert(l[0] != seq![';'][0]);
            assert(l[0] != seq!['='][0]);
            assert(l[0] != seq!['+'][0]);
            assert(l[0] != seq!['-'][0]);
            assert(l[0] != seq!['*'][0]);
            assert(l[0] != seq!['/'][0]);
            assert(l[0] != seq!['%'][0]);
            assert(l[0] != seq!['>'][0]);
            assert(l[0] != seq!['<'][0]);
            assert(l[0] != seq!['|'][0]);
            assert(l[0] != seq!['!'][0]);
            assert(l[0] != seq!['^'][0]);
            assert(l[0] != seq![':'][0]);
            assert(l[0] != seq!['.'][0]);
            assert(l[0] != seq![','][0]);
            assert(identify(l) == TokenKind::ECCbracket);
        },
        TokenKind::Delimiter => {
            let l = seq![';'];
            assert(l[0] != seq!['{'][0]);
            assert(l[0] != seq!['}'][0]);
            assert(l[0] != seq!['('][0]);
            assert(l[0] != seq![')'][0]);
            assert(l[0] != seq!['['][0]);
            assert(l[0] != seq![']'][0]);
            assert(l[0] != seq!['='][0]);
            assert(l[0] != seq!['+'][0]);
            assert(l[0] != seq!['-'][0]);
            assert(l[0] != seq!['*'][0]);
            assert(l[0] != seq!['/'][0]);
            assert(l[0] != seq!['%'][0]);
            assert(l[0] != seq!['>'][0]);
            assert(l[0] != seq!['<'][0]);
            assert(l[0] != seq!['|'][0]);
            assert(l[0] != seq!['!'][0]);
            assert(l[0] != seq!['^'][0]);
            assert(l[0] != seq![':'][0]);
            assert(l[0] != seq!['.'][0]);
            assert(l[0] != seq![','][0]);
            assert(identify(l) == TokenKind::Delimiter);
        },
        TokenKind::KWfn => {
            let l = seq!['f', 'n'];
            assert(l[0] != seq!['/', '/'][0]);
            assert(l[0] != seq!['i', 'f'][0]);
            assert(l[0] != seq!['i', 'n'][0]);
            assert(l[0] != seq!['>', '='][0]);
            assert(l[0] != seq!['<', '='][0]);
            assert(l[0] != seq!['=', '='][0]);
            assert(l[0] != seq!['!', '='][0]);
            assert(l[0] != seq!['-', '>'][0]);
            assert(l[0] != seq!['&', '&'][0]);
            assert(word_kind(l) == TokenKind::KWfn);
            assert(lexeme_kind(l) == word_kind(l));
            assert(identify(l) == TokenKind::KWfn);
        },
        TokenKind::KWlet => {
            let l = seq!['l', 'e', 't'];
            assert(l[0] != seq!['f', 'o', 'r'][0]);
            assert(word_kind(l) == TokenKind::KWlet);
            assert(lexeme_kind(l) == word_kind(l));
            assert(identify(l) == TokenKind::KWlet);
        },
        _ => {},
    }
}

proof fn lemma_identify_named_2(k: TokenKind)
    requires
        k == TokenKind::KWreturn || k == TokenKind::KWif || k == TokenKind::KWelse || k == TokenKind::KWmatch || k == TokenKind::KWwhile,
    ensures
        identify(kind_lexeme(k)->0) == k,
{
    match k {
        TokenKind::KWreturn => {
            let l = seq!['r', 'e', 't', 'u', 'r', 'n'];
            assert(l[0] != seq!['s', 't', 'r', 'u', 'c', 't'][0]);
            assert(word_kind(l) == TokenKind::KWreturn);
            assert(lexeme_kind(l) == word_kind(l));
            assert(identify(l) == TokenKind::KWreturn);
        },
        TokenKind::KWif => {
            let l = seq!['i', 'f'];
            assert(l[0] != seq!['/', '/'][0]);
            assert(l[0] != seq!['f', 'n'][0]);
            assert(l[1] != seq!['i', 'n'][1]);
            assert(l[0] != seq!['>', '='][0]);
            assert(l[0] != seq!['<', '='][0]);
            assert(l[0] != seq!['=', '='][0]);
            assert(l[0] != seq!['!', '='][0]);
            assert(l[0] != seq!['-', '>'][0]);
            assert(l[0] != seq!['&', '&'][0]);
            assert(word_kind(l) == TokenKind::KWif);
            assert(lexeme_kind(l) == word_kind(l));
            assert(identify(l) == TokenKind::KWif);
        },
        TokenKind::KWelse => {
            let l = seq!['e', 'l', 's', 'e'];
            assert(l[1] != seq!['e', 'n', 'u', 'm'][1]);
            assert(word_kind(l) == TokenKind::KWelse);
            assert(lexeme_kind(l) == word_kind(l));
            assert(identify(l) == TokenKind::KWelse);
        },
        TokenKind::KWmatch => {
            let l = seq!['m', 'a', 't', 'c', 'h'];
            assert(l[0] != seq!['w', 'h', 'i', 'l', 'e'][0]);
            assert(l[0] != seq!['b', 'r', 'e', 'a', 'k'][0]);
            assert(word_kind(l) == TokenKind::KWmatch);
            assert(lexeme_kind(l) == word_kind(l));
            assert(identify(l) == TokenKind::KWmatch);
        },
        TokenKind::KWwhile => {
            let l = seq!['w', 'h', 'i', 'l', 'e'];
            assert(l[0] != seq!['m', 'a', 't', 'c', 'h'][0]);
            assert(l[0] != seq!['b', 'r', 'e', 'a', 'k'][0]);
            assert(word_kind(l) == TokenKind::KWwhile);
            assert(lexeme_kind(l) == word_kind(l));
            assert(identify(l) == TokenKind::KWwhile);
        },
        _ => {},
    }
}

proof fn lemma_identify_named_3(k: TokenKind)
    requires
        k == TokenKind::KWfor || k == TokenKind::KWin || k == TokenKind::KWbreak || k == TokenKind::KWcontinue || k == TokenKind::KWstruct,
    ensures
        identify(kind_lexeme(k)->0) == k,
{
    match k {
        TokenKind::KWfor => {
            let l = seq!['f', 'o', 'r'];
            assert(l[0] != seq!['l', 'e', 't'][0]);
            assert(word_kind(l) == TokenKind::KWfor);
            assert(lexeme_kind(l) == word_kind(l));
            assert(identify(l) == TokenKind::KWfor);
        },
        TokenKind::KWin => {
            let l = seq!['i', 'n'];
            assert(l[0] != seq!['/', '/'][0]);
            assert(l[0] != seq!['f', 'n'][0]);
            assert(l[1] != seq!['i', 'f'][1]);
            assert(l[0] != seq!['>', '='][0]);
            assert(l[0] != seq!['<', '='][0]);
            assert(l[0] != seq!['=', '='][0]);
            assert(l[0] != seq!['!', '='][0]);
            assert(l[0] != seq!['-', '>'][0]);
            assert(l[0] != seq!['&', '&'][0]);
            assert(word_kind(l) == TokenKind::KWin);
            assert(lexeme_kind(l) == word_kind(l));
            assert(identify(l) == TokenKind::KWin);
        },
        TokenKind::KWbreak => {
            let l = seq!['b', 'r', 'e', 'a', 'k'];
            assert(l[0] != seq!['m', 'a', 't', 'c', 'h'][0]);
            assert(l[0] != seq!['w', 'h', 'i', 'l', 'e'][0]);
            assert(word_kind(l) == TokenKind::KWbreak);
            assert(lexeme_kind(l) == word_kind(l));
            assert(identify(l) == TokenKind::KWbreak);
        },
        TokenKind::KWcontinue => {
            let l = seq!['c', 'o', 'n', 't', 'i', 'n', 'u', 'e'];
            assert(word_kind(l) == TokenKind::KWcontinue);
            assert(lexeme_kind(l) == word_kind(l));
            assert(identify(l) == TokenKind::KWcontinue);
        },
        TokenKind::KWstruct => {
            let l = seq!['s', 't', 'r', 'u', 'c', 't'];
            assert(l[0] != seq!['r', 'e', 't', 'u', 'r', 'n'][0]);
            assert(word_kind(l) == TokenKind::KWstruct);
            assert(lexeme_kind(l) == word_kind(l));
            assert(identify(l) == TokenKind::KWstruct);
        },
        _ => {},
    }
}

proof fn lemma_identify_named_4(k: TokenKind)
    requires
        k == TokenKind::KWenum || k == TokenKind::OPassign || k == TokenKind::OPplus || k == TokenKind::OPsub || k == TokenKind::OPmult,
    ensures
        identify(kind_lexeme(k)->0) == k,
{
    match k {
        TokenKind::KWenum => {
            let l = seq!['e', 'n', 'u', 'm'];
            assert(l[1] != seq!['e', 'l', 's', 'e'][1]);
            assert(word_kind(l) == TokenKind::KWenum);
            assert(lexeme_kind(l) == word_kind(l));
            assert(identify(l) == TokenKind::KWenum);
        },
        TokenKind::OPassign => {
            let l = seq!['='];
            assert(l[0] != seq!['{'][0]);
            assert(l[0] != seq!['}'][0]);
            assert(l[0] != seq!['('][0]);
            assert(l[0] != seq![')'][0]);
            assert(l[0] != seq!['['][0]);
            assert(l[0] != seq![']'][0]);
            assert(l[0] != seq![';'][0]);
            assert(l[0] != seq!['+'][0]);
            assert(l[0] != seq!['-'][0]);
            assert(l[0] != seq!['*'][0]);
            assert(l[0] != seq!['/'][0]);
            assert(l[0] != seq!['%'][0]);
            assert(l[0] != seq!['>'][0]);
            assert(l[0] != seq!['<'][0]);
            assert(l[0] != seq!['|'][0]);
            assert(l[0] != seq!['!'][0]);
            assert(l[0] != seq!['^'][0]);
            assert(l[0] != seq![':'][0]);
            assert(l[0] != seq!['.'][0]);
            assert(l[0] != seq![','][0]);
            assert(operator_kind(l) == TokenKind::OPassign);
            assert(word_kind(l) == operator_kind(l));
            assert(lexeme_kind(l) == word_kind(l));
            assert(identify(l) == TokenKind::OPassign);
        },
        TokenKind::OPplus => {
            let l = seq!['+'];
            assert(l[0] != seq!['{'][0]);
            assert(l[0] != seq!['}'][0]);
            assert(l[0] != seq!['('][0]);
            assert(l[0] != seq![')'][0]);
            assert(l[0] != seq!['['][0]);
            assert(l[0] != seq![']'][0]);
            assert(l[0] != seq![';'][0]);
            assert(l[0] != seq!['='][0]);
            assert(l[0] != seq!['-'][0]);
            assert(l[0] != seq!['*'][0]);
            assert(l[0] != seq!['/'][0]);
            assert(l[0] != seq!['%'][0]);
            assert(l[0] != seq!['>'][0]);
            assert(l[0] != seq!['<'][0]);
            assert(l[0] != seq!['|'][0]);
            assert(l[0] != seq!['!'][0]);
            assert(l[0] != seq!['^'][0]);
            assert(l[0] != seq![':'][0]);
            assert(l[0] != seq!['.'][0]);
            assert(l[0] != seq![','][0]);
            assert(operator_kind(l) == TokenKind::OPplus);
            assert(word_kind(l) == operator_kind(l));
            assert(lexeme_kind(l) == word_kind(l));
            assert(identify(l) == TokenKind::OPplus);
        },
        TokenKind::OPsub => {
            let l = seq!['-'];
            assert(l[0] != seq!['{'][0]);
            assert(l[0] != seq!['}'][0]);
            assert(l[0] != seq!['('][0]);
            assert(l[0] != seq![')'][0]);
            assert(l[0] != seq!['['][0]);
            assert(l[0] != seq![']'][0]);
            assert(l[0] != seq![';'][0]);
            assert(l[0] != seq!['='][0]);
            assert(l[0] != seq!['+'][0]);
            assert(l[0] != seq!['*'][0]);
            assert(l[0] != seq!['/'][0]);
            assert(l[0] != seq!['%'][0]);
            assert(l[0] != seq!['>'][0]);
            assert(l[0] != seq!['<'][0]);
            assert(l[0] != seq!['|'][0]);
            assert(l[0] != seq!['!'][0]);
            assert(l[0] != seq!['^'][0]);
            assert(l[0] != seq![':'][0]);
            assert(l[0] != seq!['.'][0]);
            assert(l[0] != seq![','][0]);
            assert(operator_kind(l) == TokenKind::OPsub);
            assert(word_kind(l) == operator_kind(l));
            assert(lexeme_kind(l) == word_kind(l));
            assert(identify(l) == TokenKind::OPsub);
        },
        TokenKind::OPmult => {
            let l = seq!['*'];
            assert(l[0] != seq!['{'][0]);
            assert(l[0] != seq!['}'][0]);
            assert(l[0] != seq!['('][0]);
            assert(l[0] != seq![')'][0]);
            assert(l[0] != seq!['['][0]);
            assert(l[0] != seq![']'][0]);
            assert(l[0] != seq![';'][0]);
            assert(l[0] != seq!['='][0]);
            assert(l[0] != seq!['+'][0]);
            assert(l[0] != seq!['-'][0]);
            assert(l[0] != seq!['/'][0]);
            assert(l[0] != seq!['%'][0]);
            assert(l[0] != seq!['>'][0]);
            assert(l[0] != seq!['<'][0]);
            assert(l[0] != seq!['|'][0]);
            assert(l[0] != seq!['!'][0]);
            assert(l[0] != seq!['^'][0]);
            assert(l[0] != seq![':'][0]);
            assert(l[0] != seq!['.'][0]);
            assert(l[0] != seq![','][0]);
            assert(operator_kind(l) == TokenKind::OPmult);
            assert(word_kind(l) == operator_kind(l));
            assert(lexeme_kind(l) == word_kind(l));
            assert(identify(l) == TokenKind::OPmult);
        },
        _ => {},
    }
}

proof fn lemma_identify_named_5(k: TokenKind)
    requires
        k == TokenKind::OPDiv || k == TokenKind::OPmod || k == TokenKind::OPgreater || k == TokenKind::OPlesser || k == TokenKind::OPgreatereq,
    ensures
        identify(kind_lexeme(k)->0) == k,
{
    match k {
        TokenKind::OPDiv => {
            let l = seq!['/'];
            assert(l.len() != seq!['/', '/'].len());
            assert(l.len() != seq!['f', 'n'].len());
            assert(l.len() != seq!['l', 'e', 't'].len());
            assert(l.len() != seq!['r', 'e', 't', 'u', 'r', 'n'].len());
            assert(l.len() != seq!['i', 'f'].len());
            assert(l.len() != seq!['e', 'l', 's', 'e'].len());
            assert(l.len() != seq!['m', 'a', 't', 'c', 'h'].len());
            assert(l.len() != seq!['w', 'h', 'i', 'l', 'e'].len());
            assert(l.len() != seq!['f', 'o', 'r'].len());
            assert(l.len() != seq!['i', 'n'].len());
            assert(l.len() != seq!['b', 'r', 'e', 'a', 'k'].len());
            assert(l.len() != seq!['c', 'o', 'n', 't', 'i', 'n', 'u', 'e'].len());
            assert(l.len() != seq!['s', 't', 'r', 'u', 'c', 't'].len());
            assert(l.len() != seq!['e', 'n', 'u', 'm'].len());
            assert(l.len() != seq!['>', '='].len());
            assert(l.len() != seq!['<', '='].len());
            assert(l.len() != seq!['=', '='].len());
            assert(l.len() != seq!['!', '='].len());
            assert(l.len() != seq!['-', '>'].len());
            assert(l.len() != seq!['&', '&'].len());
            assert(l[0] != seq!['{'][0]);
            assert(l[0] != seq!['}'][0]);
            assert(l[0] != seq!['('][0]);
            assert(l[0] != seq![')'][0]);
            assert(l[0] != seq!['['][0]);
            assert(l[0] != seq![']'][0]);
            assert(l[0] != seq![';'][0]);
            assert(l[0] != seq!['='][0]);
            assert(l[0] != seq!['+'][0]);
            assert(l[0] != seq!['-'][0]);
            assert(l[0] != seq!['*'][0]);
            assert(l[0] != seq!['%'][0]);
            assert(l[0] != seq!['>'][0]);
            assert(l[0] != seq!['<'][0]);
            assert(l[0] != seq!['|'][0]);
            assert(l[0] != seq!['!'][0]);
            assert(l[0] != seq!['^'][0]);
            assert(l[0] != seq![':'][0]);
            assert(l[0] != seq!['.'][0]);
            assert(l[0] != seq![','][0]);
            assert(operator_kind(l) == TokenKind::OPDiv);
            assert(word_kind(l) == operator_kind(l));
            assert(lexeme_kind(l) == word_kind(l));
            assert(identify(l) == TokenKind::OPDiv);
        },
        TokenKind::OPmod => {
            let l = seq!['%'];
            assert(l[0] != seq!['{'][0]);
            assert(l[0] != seq!['}'][0]);
            assert(l[0] != seq!['('][0]);
            assert(l[0] != seq![')'][0]);
            assert(l[0] != seq!['['][0]);
            assert(l[0] != seq![']'][0]);
            assert(l[0] != seq![';'][0]);
            assert(l[0] != seq!['='][0]);
            assert(l[0] != seq!['+'][0]);
            assert(l[0] != seq!['-'][0]);
            assert(l[0] != seq!['*'][0]);
            assert(l[0] != seq!['/'][0]);
            assert(l[0] != seq!['>'][0]);
            assert(l[0] != seq!['<'][0]);
            assert(l[0] != seq!['|'][0]);
            assert(l[0] != seq!['!'][0]);
            assert(l[0] != seq!['^'][0]);
            assert(l[0] != seq![':'][0]);
            assert(l[0] != seq!['.'][0]);
            assert(l[0] != seq![','][0]);
            assert(operator_kind(l) == TokenKind::OPmod);
            assert(word_kind(l) == operator_kind(l));
            assert(lexeme_kind(l) == word_kind(l));
            assert(identify(l) == TokenKind::OPmod);
        },
        TokenKind::OPgreater => {
            let l = seq!['>'];
            assert(l[0] != seq!['{'][0]);
            assert(l[0] != seq!['}'][0]);
            assert(l[0] != seq!['('][0]);
            assert(l[0] != seq![')'][0]);
            assert(l[0] != seq!['['][0]);
            assert(l[0] != seq![']'][0]);
            assert(l[0] != seq![';'][0]);
            assert(l[0] != seq!['='][0]);
            assert(l[0] != seq!['+'][0]);
            assert(l[0] != seq!['-'][0]);
            assert(l[0] != seq!['*'][0]);
            assert(l[0] != seq!['/'][0]);
            assert(l[0] != seq!['%'][0]);
            assert(l[0] != seq!['<'][0]);
            assert(l[0] != seq!['|'][0]);
            assert(l[0] != seq!['!'][0]);
            assert(l[0] != seq!['^'][0]);
            assert(l[0] != seq![':'][0]);
            assert(l[0] != seq!['.'][0]);
            assert(l[0] != seq![','][0]);
            assert(operator_kind(l) == TokenKind::OPgreater);
            assert(word_kind(l) == operator_kind(l));
            assert(lexeme_kind(l) == word_kind(l));
            assert(identify(l) == TokenKind::OPgreater);
        },
        TokenKind::OPlesser => {
            let l = seq!['<'];
            assert(l[0] != seq!['{'][0]);
            assert(l[0] != seq!['}'][0]);
            assert(l[0] != seq!['('][0]);
            assert(l[0] != seq![')'][0]);
            assert(l[0] != seq!['['][0]);
            assert(l[0] != seq![']'][0]);
            assert(l[0] != seq![';'][0]);
            assert(l[0] != seq!['='][0]);
            assert(l[0] != seq!['+'][0]);
            assert(l[0] != seq!['-'][0]);
            assert(l[0] != seq!['*'][0]);
            assert(l[0] != seq!['/'][0]);
            assert(l[0] != seq!['%'][0]);
            assert(l[0] != seq!['>'][0]);
            assert(l[0] != seq!['|'][0]);
            assert(l[0] != seq!['!'][0]);
            assert(l[0] != seq!['^'][0]);
            assert(l[0] != seq![':'][0]);
            assert(l[0] != seq!['.'][0]);
            assert(l[0] != seq![','][0]);
            assert(operator_kind(l) == TokenKind::OPlesser);
            assert(word_kind(l) == operator_kind(l));
            assert(lexeme_kind(l) == word_kind(l));
            assert(identify(l) == TokenKind::OPlesser);
        },
        TokenKind::OPgreatereq => {
            let l = seq!['>', '='];
            assert(l.len() != seq!['{'].len());
            assert(l.len() != seq!['}'].len());
            assert(l.len() != seq!['('].len());
            assert(l.len() != seq![')'].len());
            assert(l.len() != seq!['['].len());
            assert(l.len() != seq![']'].len());
            assert(l.len() != seq![';'].len());
            assert(l.len() != seq!['l', 'e', 't'].len());
            assert(l.len() != seq!['r', 'e', 't', 'u', 'r', 'n'].len());
            assert(l.len() != seq!['e', 'l', 's', 'e'].len());
            assert(l.len() != seq!['m', 'a', 't', 'c', 'h'].len());
            assert(l.len() != seq!['w', 'h', 'i', 'l', 'e'].len());
            assert(l.len() != seq!['f', 'o', 'r'].len());
            assert(l.len() != seq!['b', 'r', 'e', 'a', 'k'].len());
            assert(l.len() != seq!['c', 'o', 'n', 't', 'i', 'n', 'u', 'e'].len());
            assert(l.len() != seq!['s', 't', 'r', 'u', 'c', 't'].len());
            assert(l.len() != seq!['e', 'n', 'u', 'm'].len());
            assert(l.len() != seq!['='].len());
            assert(l.len() != seq!['+'].len());
            assert(l.len() != seq!['-'].len());
            assert(l.len() != seq!['*'].len());
            assert(l.len() != seq!['/'].len());
            assert(l.len() != seq!['%'].len());
            assert(l.len() != seq!['>'].len());
            assert(l.len() != seq!['<'].len());
            assert(l.len() != seq!['|'].len());
            assert(l.len() != seq!['!'].len());
            assert(l.len() != seq!['^'].len());
            assert(l.len() != seq![':'].len());
            assert(l.len() != seq!['.'].len());
            assert(l.len() != seq![','].len());
            assert(l[0] != seq!['/', '/'][0]);
            assert(l[0] != seq!['f', 'n'][0]);
            assert(l[0] != seq!['i', 'f'][0]);
            assert(l[0] != seq!['i', 'n'][0]);
            assert(l[0] != seq!['<', '='][0]);
            assert(l[0] != seq!['=', '='][0]);
            assert(l[0] != seq!['!', '='][0]);
            assert(l[0] != seq!['-', '>'][0]);
            assert(l[0] != seq!['&', '&'][0]);
            assert(operator_kind(l) == TokenKind::OPgreatereq);
            assert(word_kind(l) == operator_kind(l));
            assert(lexeme_kind(l) == word_kind(l));
            assert(identify(l) == TokenKind::OPgreatereq);
        },
        _ => {},
    }
}

proof fn lemma_identify_named_6(k: TokenKind)
    requires
        k == TokenKind::OPlessereq || k == TokenKind::OPequal || k == TokenKind::OPnotequal || k == TokenKind::OPor || k == TokenKind::OPnot,
    ensures
        identify(kind_lexeme(k)->0) == k,
{
    match k {
        TokenKind::OPlessereq => {
            let l = seq!['<', '='];
            assert(l.len() != seq!['{'].len());
            assert(l.len() != seq!['}'].len());
            assert(l.len() != seq!['('].len());
            assert(l.len() != seq![')'].len());
            assert(l.len() != seq!['['].len());
            assert(l.len() != seq![']'].len());
            assert(l.len() != seq![';'].len());
            assert(l.len() != seq!['l', 'e', 't'].len());
            assert(l.len() != seq!['r', 'e', 't', 'u', 'r', 'n'].len());
            assert(l.len() != seq!['e', 'l', 's', 'e'].len());
            assert(l.len() != seq!['m', 'a', 't', 'c', 'h'].len());
            assert(l.len() != seq!['w', 'h', 'i', 'l', 'e'].len());
            assert(l.len() != seq!['f', 'o', 'r'].len());
            assert(l.len() != seq!['b', 'r', 'e', 'a', 'k'].len());
            assert(l.len() != seq!['c', 'o', 'n', 't', 'i', 'n', 'u', 'e'].len());
            assert(l.len() != seq!['s', 't', 'r', 'u', 'c', 't'].len());
            assert(l.len() != seq!['e', 'n', 'u', 'm'].len());
            assert(l.len() != seq!['='].len());
            assert(l.len() != seq!['+'].len());
            assert(l.len() != seq!['-'].len());
            assert(l.len() != seq!['*'].len());
            assert(l.len() != seq!['/'].len());
            assert(l.len() != seq!['%'].len());
            assert(l.len() != seq!['>'].len());
            assert(l.len() != seq!['<'].len());
            assert(l.len() != seq!['|'].len());
            assert(l.len() != seq!['!'].len());
            assert(l.len() != seq!['^'].len());
            assert(l.len() != seq![':'].len());
            assert(l.len() != seq!['.'].len());
            assert(l.len() != seq![','].len());
            assert(l[0] != seq!['/', '/'][0]);
            assert(l[0] != seq!['f', 'n'][0]);
            assert(l[0] != seq!['i', 'f'][0]);
            assert(l[0] != seq!['i', 'n'][0]);
            assert(l[0] != seq!['>', '='][0]);
            assert(l[0] != seq!['=', '='][0]);
            assert(l[0] != seq!['!', '='][0]);
            assert(l[0] != seq!['-', '>'][0]);
            assert(l[0] != seq!['&', '&'][0]);
            assert(operator_kind(l) == TokenKind::OPlessereq);
            assert(word_kind(l) == operator_kind(l));
            assert(lexeme_kind(l) == word_kind(l));
            assert(identify(l) == TokenKind::OPlessereq);
        },
        TokenKind::OPequal => {
            let l = seq!['=', '='];
            assert(l.len() != seq!['{'].len());
            assert(l.len() != seq!['}'].len());
            assert(l.len() != seq!['('].len());
            assert(l.len() != seq![')'].len());
            assert(l.len() != seq!['['].len());
            assert(l.len() != seq![']'].len());
            assert(l.len() != seq![';'].len());
            assert(l.len() != seq!['l', 'e', 't'].len());
            assert(l.len() != seq!['r', 'e', 't', 'u', 'r', 'n'].len());
            assert(l.len() != seq!['e', 'l', 's', 'e'].len());
            assert(l.len() != seq!['m', 'a', 't', 'c', 'h'].len());
            assert(l.len() != seq!['w', 'h', 'i', 'l', 'e'].len());
            assert(l.len() != seq!['f', 'o', 'r'].len());
            assert(l.len() != seq!['b', 'r', 'e', 'a', 'k'].len());
            assert(l.len() != seq!['c', 'o', 'n', 't', 'i', 'n', 'u', 'e'].len());
            assert(l.len() != seq!['s', 't', 'r', 'u', 'c', 't'].len());
            assert(l.len() != seq!['e', 'n', 'u', 'm'].len());
            assert(l.len() != seq!['='].len());
            assert(l.len() != seq!['+'].len());
            assert(l.len() != seq!['-'].len());
            assert(l.len() != seq!['*'].len());
            assert(l.len() != seq!['/'].len());
            assert(l.len() != seq!['%'].len());
            assert(l.len() != seq!['>'].len());
            assert(l.len() != seq!['<'].len());
            assert(l.len() != seq!['|'].len());
            assert(l.len() != seq!['!'].len());
            assert(l.len() != seq!['^'].len());
            assert(l.len() != seq![':'].len());
            assert(l.len() != seq!['.'].len());
            assert(l.len() != seq![','].len());
            assert(l[0] != seq!['/', '/'][0]);
            assert(l[0] != seq!['f', 'n'][0]);
            assert(l[0] != seq!['i', 'f'][0]);
            assert(l[0] != seq!['i', 'n'][0]);
            assert(l[0] != seq!['>', '='][0]);
            assert(l[0] != seq!['<', '='][0]);
            assert(l[0] != seq!['!', '='][0]);
            assert(l[0] != seq!['-', '>'][0]);
            assert(l[0] != seq!['&', '&'][0]);
            assert(operator_kind(l) == TokenKind::OPequal);
            assert(word_kind(l) == operator_kind(l));
            assert(lexeme_kind(l) == word_kind(l));
            assert(identify(l) == TokenKind::OPequal);
        },
        TokenKind::OPnotequal => {
            let l = seq!['!', '='];
            assert(l[0] != seq!['/', '/'][0]);
            assert(l[0] != seq!['f', 'n'][0]);
            assert(l[0] != seq!['i', 'f'][0]);
            assert(l[0] != seq!['i', 'n'][0]);
            assert(l[0] != seq!['>', '='][0]);
            assert(l[0] != seq!['<', '='][0]);
            assert(l[0] != seq!['=', '='][0]);
            assert(l[0] != seq!['-', '>'][0]);
            assert(l[0] != seq!['&', '&'][0]);
            assert(operator_kind(l) == TokenKind::OPnotequal);
            assert(word_kind(l) == operator_kind(l));
            assert(lexeme_kind(l) == word_kind(l));
            assert(identify(l) == TokenKind::OPnotequal);
        },
        TokenKind::OPor => {
            let l = seq!['|'];
            assert(l[0] != seq!['{'][0]);
            assert(l[0] != seq!['}'][0]);
            assert(l[0] != seq!['('][0]);
            assert(l[0] != seq![')'][0]);
            assert(l[0] != seq!['['][0]);
            assert(l[0] != seq![']'][0]);
            assert(l[0] != seq![';'][0]);
            assert(l[0] != seq!['='][0]);
            assert(l[0] != seq!['+'][0]);
            assert(l[0] != seq!['-'][0]);
            assert(l[0] != seq!['*'][0]);
            assert(l[0] != seq!['/'][0]);
            assert(l[0] != seq!['%'][0]);
            assert(l[0] != seq!['>'][0]);
            assert(l[0] != seq!['<'][0]);
            assert(l[0] != seq!['!'][0]);
            assert(l[0] != seq!['^'][0]);
            assert(l[0] != seq![':'][0]);
            assert(l[0] != seq!['.'][0]);
            assert(l[0] != seq![','][0]);
            assert(operator_kind(l) == TokenKind::OPor);
            assert(word_kind(l) == operator_kind(l));
            assert(lexeme_kind(l) == word_kind(l));
            assert(identify(l) == TokenKind::OPor);
        },
        TokenKind::OPnot => {
            let l = seq!['!'];
            assert(l.len() != seq!['/', '/'].len());
            assert(l.len() != seq!['f', 'n'].len());
            assert(l.len() != seq!['l', 'e', 't'].len());
            assert(l.len() != seq!['r', 'e', 't', 'u', 'r', 'n'].len());
            assert(l.len() != seq!['i', 'f'].len());
            assert(l.len() != seq!['e', 'l', 's', 'e'].len());
            assert(l.len() != seq!['m', 'a', 't', 'c', 'h'].len());
            assert(l.len() != seq!['w', 'h', 'i', 'l', 'e'].len());
            assert(l.len() != seq!['f', 'o', 'r'].len());
            assert(l.len() != seq!['i', 'n'].len());
            assert(l.len() != seq!['b', 'r', 'e', 'a', 'k'].len());
            assert(l.len() != seq!['c', 'o', 'n', 't', 'i', 'n', 'u', 'e'].len());
            assert(l.len() != seq!['s', 't', 'r', 'u', 'c', 't'].len());
            assert(l.len() != seq!['e', 'n', 'u', 'm'].len());
            assert(l.len() != seq!['>', '='].len());
            assert(l.len() != seq!['<', '='].len());
            assert(l.len() != seq!['=', '='].len());
            assert(l.len() != seq!['!', '='].len());
            assert(l.len() != seq!['-', '>'].len());
            assert(l.len() != seq!['&', '&'].len());
            assert(l[0] != seq!['{'][0]);
            assert(l[0] != seq!['}'][0]);
            assert(l[0] != seq!['('][0]);
            assert(l[0] != seq![')'][0]);
            assert(l[0] != seq!['['][0]);
            assert(l[0] != seq![']'][0]);
            assert(l[0] != seq![';'][0]);
            assert(l[0] != seq!['='][0]);
            assert(l[0] != seq!['+'][0]);
            assert(l[0] != seq!['-'][0]);
            assert(l[0] != seq!['*'][0]);
            assert(l[0] != seq!['/'][0]);
            assert(l[0] != seq!['%'][0]);
            assert(l[0] != seq!['>'][0]);
            assert(l[0] != seq!['<'][0]);
            assert(l[0] != seq!['|'][0]);
            assert(l[0] != seq!['^'][0]);
            assert(l[0] != seq![':'][0]);
            assert(l[0] != seq!['.'][0]);
            assert(l[0] != seq![','][0]);
            assert(operator_kind(l) == TokenKind::OPnot);
            assert(word_kind(l) == operator_kind(l));
            assert(lexeme_kind(l) == word_kind(l));
            assert(identify(l) == TokenKind::OPnot);
        },
        _ => {},
    }
}

proof fn lemma_identify_named_7(k: TokenKind)
    requires
        k == TokenKind::OPxor || k == TokenKind::Arrow || k == TokenKind::Colon || k == TokenKind::Dot || k == TokenKind::Comma,
    ensures
        identify(kind_lexeme(k)->0) == k,
{
    match k {
        TokenKind::OPxor => {
            let l = seq!['^'];
            assert(l[0] != seq!['{'][0]);
            assert(l[0] != seq!['}'][0]);
            assert(l[0] != seq!['('][0]);
            assert(l[0] != seq![')'][0]);
            assert(l[0] != seq!['['][0]);
            assert(l[0] != seq![']'][0]);
            assert(l[0] != seq![';'][0]);
            assert(l[0] != seq!['='][0]);
            assert(l[0] != seq!['+'][0]);
            assert(l[0] != seq!['-'][0]);
            assert(l[0] != seq!['*'][0]);
            assert(l[0] != seq!['/'][0]);
            assert(l[0] != seq!['%'][0]);
            assert(l[0] != seq!['>'][0]);
            assert(l[0] != seq!['<'][0]);
            assert(l[0] != seq!['|'][0]);
            assert(l[0] != seq!['!'][0]);
            assert(l[0] != seq![':'][0]);
            assert(l[0] != seq!['.'][0]);
            assert(l[0] != seq![','][0]);
            assert(operator_kind(l) == TokenKind::OPxor);
            assert(word_kind(l) == operator_kind(l));
            assert(lexeme_kind(l) == word_kind(l));
            assert(identify(l) == TokenKind::OPxor);
        },
        TokenKind::Arrow => {
            let l = seq!['-', '>'];
            assert(l.len() != seq!['{'].len());
            assert(l.len() != seq!['}'].len());
            assert(l.len() != seq!['('].len());
            assert(l.len() != seq![')'].len());
            assert(l.len() != seq!['['].len());
            assert(l.len() != seq![']'].len());
            assert(l.len() != seq![';'].len());
            assert(l.len() != seq!['l', 'e', 't'].len());
            assert(l.len() != seq!['r', 'e', 't', 'u', 'r', 'n'].len());
            assert(l.len() != seq!['e', 'l', 's', 'e'].len());
            assert(l.len() != seq!['m', 'a', 't', 'c', 'h'].len());
            assert(l.len() != seq!['w', 'h', 'i', 'l', 'e'].len());
            assert(l.len() != seq!['f', 'o', 'r'].len());
            assert(l.len() != seq!['b', 'r', 'e', 'a', 'k'].len());
            assert(l.len() != seq!['c', 'o', 'n', 't', 'i', 'n', 'u', 'e'].len());
            assert(l.len() != seq!['s', 't', 'r', 'u', 'c', 't'].len());
            assert(l.len() != seq!['e', 'n', 'u', 'm'].len());
            assert(l.len() != seq!['='].len());
            assert(l.len() != seq!['+'].len());
            assert(l.len() != seq!['-'].len());
            assert(l.len() != seq!['*'].len());
            assert(l.len() != seq!['/'].len());
            assert(l.len() != seq!['%'].len());
            assert(l.len() != seq!['>'].len());
            assert(l.len() != seq!['<'].len());
            assert(l.len() != seq!['|'].len());
            assert(l.len() != seq!['!'].len());
            assert(l.len() != seq!['^'].len());
            assert(l.len() != seq![':'].len());
            assert(l.len() != seq!['.'].len());
            assert(l.len() != seq![','].len());
            assert(l[0] != seq!['/', '/'][0]);
            assert(l[0] != seq!['f', 'n'][0]);
            assert(l[0] != seq!['i', 'f'][0]);
            assert(l[0] != seq!['i', 'n'][0]);
            assert(l[0] != seq!['>', '='][0]);
            assert(l[0] != seq!['<', '='][0]);
            assert(l[0] != seq!['=', '='][0]);
            assert(l[0] != seq!['!', '='][0]);
            assert(l[0] != seq!['&', '&'][0]);
            assert(operator_kind(l) == TokenKind::Arrow);
            assert(word_kind(l) == operator_kind(l));
            assert(lexeme_kind(l) == word_kind(l));
            assert(identify(l) == TokenKind::Arrow);
        },
        TokenKind::Colon => {
            let l = seq![':'];
            assert(l[0] != seq!['{'][0]);
            assert(l[0] != seq!['}'][0]);
            assert(l[0] != seq!['('][0]);
            assert(l[0] != seq![')'][0]);
            assert(l[0] != seq!['['][0]);
            assert(l[0] != seq![']'][0]);
            assert(l[0] != seq![';'][0]);
            assert(l[0] != seq!['='][0]);
            assert(l[0] != seq!['+'][0]);
            assert(l[0] != seq!['-'][0]);
            assert(l[0] != seq!['*'][0]);
            assert(l[0] != seq!['/'][0]);
            assert(l[0] != seq!['%'][0]);
            assert(l[0] != seq!['>'][0]);
            assert(l[0] != seq!['<'][0]);
            assert(l[0] != seq!['|'][0]);
            assert(l[0] != seq!['!'][0]);
            assert(l[0] != seq!['^'][0]);
            assert(l[0] != seq!['.'][0]);
            assert(l[0] != seq![','][0]);
            assert(operator_kind(l) == TokenKind::Colon);
            assert(word_kind(l) == operator_kind(l));
            assert(lexeme_kind(l) == word_kind(l));
            assert(identify(l) == TokenKind::Colon);
        },
        TokenKind::Dot => {
            let l = seq!['.'];
            assert(l[0] != seq!['{'][0]);
            assert(l[0] != seq!['}'][0]);
            assert(l[0] != seq!['('][0]);
            assert(l[0] != seq![')'][0]);
            assert(l[0] != seq!['['][0]);
            assert(l[0] != seq![']'][0]);
            assert(l[0] != seq![';'][0]);
            assert(l[0] != seq!['='][0]);
            assert(l[0] != seq!['+'][0]);
            assert(l[0] != seq!['-'][0]);
            assert(l[0] != seq!['*'][0]);
            assert(l[0] != seq!['/'][0]);
            assert(l[0] != seq!['%'][0]);
            assert(l[0] != seq!['>'][0]);
            assert(l[0] != seq!['<'][0]);
            assert(l[0] != seq!['|'][0]);
            assert(l[0] != seq!['!'][0]);
            assert(l[0] != seq!['^'][0]);
            assert(l[0] != seq![':'][0]);
            assert(l[0] != seq![','][0]);
            assert(operator_kind(l) == TokenKind::Dot);
            assert(word_kind(l) == operator_kind(l));
            assert(lexeme_kind(l) == word_kind(l));
            assert(identify(l) == TokenKind::Dot);
        },
        TokenKind::Comma => {
            let l = seq![','];
            assert(l[0] != seq!['{'][0]);
            assert(l[0] != seq!['}'][0]);
            assert(l[0] != seq!['('][0]);
            assert(l[0] != seq![')'][0]);
            assert(l[0] != seq!['['][0]);
            assert(l[0] != seq![']'][0]);
            assert(l[0] != seq![';'][0]);
            assert(l[0] != seq!['='][0]);
            assert(l[0] != seq!['+'][0]);
            assert(l[0] != seq!['-'][0]);
            assert(l[0] != seq!['*'][0]);
            assert(l[0] != seq!['/'][0]);
            assert(l[0] != seq!['%'][0]);
            assert(l[0] != seq!['>'][0]);
            assert(l[0] != seq!['<'][0]);
            assert(l[0] != seq!['|'][0]);
            assert(l[0] != seq!['!'][0]);
            assert(l[0] != seq!['^'][0]);
            assert(l[0] != seq![':'][0]);
            assert(l[0] != seq!['.'][0]);
            assert(operator_kind(l) == TokenKind::Comma);
            assert(word_kind(l) == operator_kind(l));
            assert(lexeme_kind(l) == word_kind(l));
            assert(identify(l) == TokenKind::Comma);
        },
        _ => {},
    }
}

/// Each keyword, operator, bracket, comment and delimiter lexeme is identified as its own kind.
pub proof fn law_identify_named_kinds(k: TokenKind)
    requires
        kind_lexeme(k) is Some,
    ensures
        identify(kind_lexeme(k)->0) == k,
{
    if k == TokenKind::Comment || k == TokenKind::ECObrace || k == TokenKind::ECCbrace || k == TokenKind::ECOparen || k == TokenKind::ECCparen {
        lemma_identify_named_0(k);
    } else if k == TokenKind::ECObracket || k == TokenKind::ECCbracket || k == TokenKind::Delimiter || k == TokenKind::KWfn || k == TokenKind::KWlet {
        lemma_identify_named_1(k);
    } else if k == TokenKind::KWreturn || k == TokenKind::KWif || k == TokenKind::KWelse || k == TokenKind::KWmatch || k == TokenKind::KWwhile {
        lemma_identify_named_2(k);
    } else if k == TokenKind::KWfor || k == TokenKind::KWin || k == TokenKind::KWbreak || k == TokenKind::KWcontinue || k == TokenKind::KWstruct {
        lemma_identify_named_3(k);
    } else if k == TokenKind::KWenum || k == TokenKind::OPassign || k == TokenKind::OPplus || k == TokenKind::OPsub || k == TokenKind::OPmult {
        lemma_identify_named_4(k);
    } else if k == TokenKind::OPDiv || k == TokenKind::OPmod || k == TokenKind::OPgreater || k == TokenKind::OPlesser || k == TokenKind::OPgreatereq {
        lemma_identify_named_5(k);
    } else if k == TokenKind::OPlessereq || k == TokenKind::OPequal || k == TokenKind::OPnotequal || k == TokenKind::OPor || k == TokenKind::OPnot {
        lemma_identify_named_6(k);
    } else if k == TokenKind::OPxor || k == TokenKind::Arrow || k == TokenKind::Colon || k == TokenKind::Dot || k == TokenKind::Comma {
        lemma_identify_named_7(k);
    }
}

/// A keyword, operator, bracket, comment or delimiter kind comes from its one lexeme only, so
/// two lexemes identified as the same such kind are the same lexeme.
pub proof fn law_identify_one_lexeme_per_kind(lexeme: Seq<char>)
    requires
        lexeme.len() > 0,
        kind_lexeme(identify(lexeme)) is Some,
    ensures
        lexeme == kind_lexeme(identify(lexeme))->0,
{
}

} // verus!
