//! Tokens of the language, compile errors, source files and the line tokenizer.
use vstd::prelude::*;
use crate::text::{owned, push_char, push_str, repeat};
use crate::util::{decimal, decimal_string};
use crate::ast::{primitive_name, primitive_text};
use crate::lexer::{tokenize_tree, tree_run, Halt, HaltView};

verus! {

/// The primitive value types of the language.
#[derive(Debug, Clone, Copy, PartialEq, Eq, Structural)]
pub enum PrimitiveType {
    Unsigned8,
    Unsigned16,
    Unsigned32,
    Unsigned64,
    Signed8,
    Signed16,
    Signed32,
    Signed64,
    Float32,
}

/// The kinds of token the tokenizer produces.
#[derive(Debug, Clone, Copy, PartialEq, Eq, Structural)]
pub enum TokenKind {
    Include,
    StringLiteral,
    NumberLiteral,
    Identifer,
    KWfn,
    KWlet,
    KWreturn,
    KWif,
    KWelse,
    KWmatch,
    KWwhile,
    KWfor,
    KWin,
    KWbreak,
    KWcontinue,
    KWstruct,
    KWenum,
    KWconst,
    KWstatic,
    Primitive(PrimitiveType),
    Slash,
    Plus,
    Star,
    Dash,
    And,
    Carot,
    Percent,
    Dollar,
    At,
    Exclaim,
    Assign,
    Colon,
    SemiColon,
    OpenCurly,
    ClosedCurly,
    OpenBracket,
    ClosedBracket,
    OpenParenth,
    ClosedParenth,
    Comma,
    Dot,
    Apostro,
    Greater,
    Lesser,
    Compare,
    GreaterEq,
    LesserEq,
    DoublePipe,
    Arrow,
    Pipe,
    BackTick,
    Grave,
    EOF,
}

/// Where a token stands: file, line (from 1) and column (from 1).
#[derive(Clone, Debug)]
pub struct MetadataReference {
    file_name: String,
    line_number: usize,
    column: usize,
}

/// The mathematical content of a `MetadataReference`.
#[verifier::ext_equal]
pub struct MetadataView {
    pub file_name: Seq<char>,
    pub line_number: usize,
    pub column: usize,
}

impl View for MetadataReference {
    type V = MetadataView;

    closed spec fn view(&self) -> MetadataView {
        MetadataView { file_name: self.file_name@, line_number: self.line_number, column: self.column }
    }
}

impl MetadataReference {
    pub(crate) fn new(file_name: &str, line_number: usize, column: usize) -> (r: Self)
        ensures
            r@ == (MetadataView { file_name: file_name@, line_number, column }),
    {
        MetadataReference { file_name: owned(file_name), line_number, column }
    }

    pub fn file_name(&self) -> (r: &str)
        ensures
            r@ == self@.file_name,
    {
        self.file_name.as_str()
    }

    pub fn line_number(&self) -> (r: usize)
        ensures
            r == self@.line_number,
    {
        self.line_number
    }

    pub fn column(&self) -> (r: usize)
        ensures
            r == self@.column,
    {
        self.column
    }

    pub fn duplicate(&self) -> (r: Self)
        ensures
            r@ == self@,
    {
        MetadataReference {
            file_name: self.file_name.clone(),
            line_number: self.line_number,
            column: self.column,
        }
    }
}

impl Default for MetadataReference {
    fn default() -> (r: Self)
        ensures
            r@ == (MetadataView { file_name: Seq::empty(), line_number: 1, column: 1 }),
    {
        MetadataReference { file_name: String::new(), line_number: 1, column: 1 }
    }
}

/// One token: its kind, its text and where it stands.
#[derive(Clone, Debug)]
pub struct Token {
    pub kind: TokenKind,
    pub lexeme: String,
    pub metadata: MetadataReference,
}

/// The mathematical content of a `Token`.
#[verifier::ext_equal]
pub struct TokenView {
    pub kind: TokenKind,
    pub lexeme: Seq<char>,
    pub metadata: MetadataView,
}

impl View for Token {
    type V = TokenView;

    open spec fn view(&self) -> TokenView {
        TokenView { kind: self.kind, lexeme: self.lexeme@, metadata: self.metadata@ }
    }
}

/// The token that ends every tokenized source tree.
pub open spec fn eof_token() -> TokenView {
    TokenView {
        kind: TokenKind::EOF,
        lexeme: Seq::empty(),
        metadata: MetadataView { file_name: Seq::empty(), line_number: 1, column: 1 },
    }
}

impl Token {
    pub(crate) fn new(kind: TokenKind, lexeme: &str, metadata: MetadataReference) -> (r: Self)
        ensures
            r@ == (TokenView { kind, lexeme: lexeme@, metadata: metadata@ }),
    {
        Token { kind, lexeme: owned(lexeme), metadata }
    }

    /// The end-of-file sentinel token.
    pub(crate) fn eof() -> (r: Self)
        ensures
            r@ == eof_token(),
    {
        Token { kind: TokenKind::EOF, lexeme: String::new(), metadata: MetadataReference::default() }
    }

    /// Whether this token is of the given kind.
    pub fn is(&self, kind: TokenKind) -> (r: bool)
        ensures
            r == (self.kind == kind),
    {
        self.kind == kind
    }

    pub fn duplicate(&self) -> (r: Self)
        ensures
            r@ == self@,
    {
        Token { kind: self.kind, lexeme: self.lexeme.clone(), metadata: self.metadata.duplicate() }
    }
}

} // verus!

verus! {

/// The lines of `s` as `str::lines` gives them, scanning with the current partial line `cur`:
/// a line ends at `'\n'` (one `'\r'` before it is dropped); a last line without `'\n'` is kept
/// as it is, and nothing follows a final `'\n'`.
pub open spec fn lines_from(s: Seq<char>, cur: Seq<char>) -> Seq<Seq<char>>
    decreases s.len(),
{
    if s.len() == 0 {
        if cur.len() == 0 {
            Seq::empty()
        } else {
            seq![cur]
        }
    } else if s[0] == '\n' {
        seq![without_cr(cur)] + lines_from(s.drop_first(), Seq::empty())
    } else {
        lines_from(s.drop_first(), cur.push(s[0]))
    }
}

/// A line with one trailing carriage return removed.
pub open spec fn without_cr(l: Seq<char>) -> Seq<char> {
    if l.len() > 0 && l.last() == '\r' {
        l.drop_last()
    } else {
        l
    }
}

/// The lines of a text.
pub open spec fn lines_of(s: Seq<char>) -> Seq<Seq<char>> {
    lines_from(s, Seq::empty())
}

/// The views of a sequence of strings.
pub open spec fn views(v: Seq<String>) -> Seq<Seq<char>> {
    v.map_values(|s: String| s@)
}

/// One source file, kept line by line.
pub struct SourceFile {
    file_name: String,
    source: Vec<String>,
}

impl View for SourceFile {
    type V = (Seq<char>, Seq<Seq<char>>);

    closed spec fn view(&self) -> (Seq<char>, Seq<Seq<char>>) {
        (self.file_name@, views(self.source@))
    }
}

impl SourceFile {
    /// A source file named `file_name` whose text is `contents`, split into lines.
    pub fn new(file_name: &str, contents: &str) -> (r: Self)
        ensures
            r@ == (file_name@, lines_of(contents@)),
    {
        let cs = crate::text::chars_of(contents);
        let mut lines: Vec<String> = Vec::new();
        let mut cur: Vec<char> = Vec::new();
        let mut i: usize = 0;
        assert(cs@.skip(0) =~= cs@);
        assert(views(lines@) =~= Seq::<Seq<char>>::empty());
        assert(views(lines@) + lines_from(cs@.skip(0), cur@) =~= lines_from(cs@, Seq::empty()));
        while i < cs.len()
            invariant
                i <= cs@.len(),
                cs@ == contents@,
                views(lines@) + lines_from(cs@.skip(i as int), cur@) == lines_of(contents@),
            decreases cs@.len() - i,
        {
            let c = cs[i];
            let ghost rest = cs@.skip(i as int);
            let ghost old_cur = cur@;
            let ghost old_lines = views(lines@);
            assert(rest.drop_first() =~= cs@.skip(i + 1));
            assert(rest[0] == c);
            if c == '\n' {
                let n = cur.len();
                let line = if n > 0 && cur[n - 1] == '\r' {
                    crate::text::string_of(&cur.as_slice()[0..n - 1])
                } else {
                    crate::text::string_of(cur.as_slice())
                };
                proof {
                    if n > 0 && cur@[n - 1] == '\r' {
                        assert(cur@.subrange(0, n - 1) =~= cur@.drop_last());
                    }
                }
                assert(line@ == without_cr(old_cur));
                lines.push(line);
                assert(views(lines@) =~= old_lines.push(without_cr(old_cur)));
                cur = Vec::new();
                assert(lines_from(rest, old_cur) == seq![without_cr(old_cur)] + lines_from(
                    cs@.skip(i + 1),
                    Seq::empty(),
                ));
                assert(views(lines@) + lines_from(cs@.skip(i + 1), cur@) =~= old_lines
                    + lines_from(rest, old_cur));
            } else {
                cur.push(c);
                assert(lines_from(rest, old_cur) == lines_from(cs@.skip(i + 1), cur@));
            }
            i = i + 1;
        }
        if cur.len() > 0 {
            let ghost old_lines = views(lines@);
            lines.push(crate::text::string_of(cur.as_slice()));
            assert(views(lines@) =~= old_lines.push(cur@));
        }
        assert(cs@.skip(cs@.len() as int) =~= Seq::<char>::empty());
        assert(views(lines@) =~= lines_of(contents@));
        SourceFile { file_name: owned(file_name), source: lines }
    }

    pub fn file_name(&self) -> (r: &str)
        ensures
            r@ == self@.0,
    {
        self.file_name.as_str()
    }

    /// The lines of the file.
    pub fn lines(&self) -> (r: &Vec<String>)
        ensures
            views(r@) == self@.1,
    {
        &self.source
    }

    /// The line with number `line_number` (counted from 1).
    pub fn get_line(&self, line_number: usize) -> (r: Option<&String>)
        ensures
            match r {
                Some(l) => 1 <= line_number <= self@.1.len() && l@ == self@.1[line_number - 1],
                None => !(1 <= line_number <= self@.1.len()),
            },
    {
        if line_number >= 1 && line_number <= self.source.len() {
            Some(&self.source[line_number - 1])
        } else {
            None
        }
    }

    pub fn duplicate(&self) -> (r: Self)
        ensures
            r@ == self@,
    {
        let mut v: Vec<String> = Vec::new();
        let mut i: usize = 0;
        while i < self.source.len()
            invariant
                i <= self.source@.len(),
                views(v@) =~= views(self.source@).take(i as int),
            decreases self.source@.len() - i,
        {
            let ghost old_v = views(v@);
            let l = self.source[i].clone();
            v.push(l);
            assert(views(v@) =~= old_v.push(l@));
            assert(views(self.source@).take(i + 1) =~= views(self.source@).take(i as int).push(
                self.source@[i as int]@,
            ));
            i = i + 1;
        }
        assert(views(self.source@).take(self.source@.len() as int) =~= views(self.source@));
        SourceFile { file_name: self.file_name.clone(), source: v }
    }
}

} // verus!

verus! {

/// The map from file name to lines that a list of files gives, later entries winning.
pub open spec fn files_map(fs: Seq<(Seq<char>, Seq<Seq<char>>)>) -> Map<Seq<char>, Seq<Seq<char>>>
    decreases fs.len(),
{
    if fs.len() == 0 {
        Map::empty()
    } else {
        files_map(fs.drop_last()).insert(fs.last().0, fs.last().1)
    }
}

/// Entries after position `j` that do not name `k` do not change what `k` maps to.
proof fn lemma_files_map_suffix(fs: Seq<(Seq<char>, Seq<Seq<char>>)>, j: int, k: Seq<char>)
    requires
        0 <= j <= fs.len(),
        forall|i: int| j <= i < fs.len() ==> fs[i].0 != k,
    ensures
        files_map(fs).contains_key(k) == files_map(fs.take(j)).contains_key(k),
        files_map(fs).contains_key(k) ==> files_map(fs)[k] == files_map(fs.take(j))[k],
    decreases fs.len(),
{
    if fs.len() > j {
        assert(fs.drop_last().take(j) =~= fs.take(j));
        lemma_files_map_suffix(fs.drop_last(), j, k);
    } else {
        assert(fs.take(j) =~= fs);
    }
}

/// The files a compilation has read, by name, and the reads that failed, with the error
/// each gave.
pub struct Source {
    files: Vec<SourceFile>,
    failed: Vec<(String, String)>,
}

/// The map from path to error text that a list of failed reads gives, later entries winning.
pub open spec fn failures_map(fs: Seq<(Seq<char>, Seq<char>)>) -> Map<Seq<char>, Seq<char>>
    decreases fs.len(),
{
    if fs.len() == 0 {
        Map::empty()
    } else {
        failures_map(fs.drop_last()).insert(fs.last().0, fs.last().1)
    }
}

/// The path and error text of each failed read.
pub open spec fn failure_views(v: Seq<(String, String)>) -> Seq<(Seq<char>, Seq<char>)> {
    v.map_values(|f: (String, String)| (f.0@, f.1@))
}

/// Entries after position `j` that do not name `k` do not change what `k` maps to.
proof fn lemma_failures_map_suffix(fs: Seq<(Seq<char>, Seq<char>)>, j: int, k: Seq<char>)
    requires
        0 <= j <= fs.len(),
        forall|i: int| j <= i < fs.len() ==> fs[i].0 != k,
    ensures
        failures_map(fs).contains_key(k) == failures_map(fs.take(j)).contains_key(k),
        failures_map(fs).contains_key(k) ==> failures_map(fs)[k] == failures_map(fs.take(j))[k],
    decreases fs.len(),
{
    if fs.len() > j {
        assert(fs.drop_last().take(j) =~= fs.take(j));
        lemma_failures_map_suffix(fs.drop_last(), j, k);
    } else {
        assert(fs.take(j) =~= fs);
    }
}

/// The name and lines of each file.
pub open spec fn file_views(v: Seq<SourceFile>) -> Seq<(Seq<char>, Seq<Seq<char>>)> {
    v.map_values(|f: SourceFile| f@)
}

/// The line with number `line_n` (from 1) of file `file_name`, if both exist.
pub open spec fn source_line(src: Map<Seq<char>, Seq<Seq<char>>>, file_name: Seq<char>, line_n: int) -> Option<Seq<char>> {
    if src.contains_key(file_name) && 1 <= line_n <= src[file_name].len() {
        Some(src[file_name][line_n - 1])
    } else {
        None
    }
}

impl View for Source {
    type V = Map<Seq<char>, Seq<Seq<char>>>;

    closed spec fn view(&self) -> Map<Seq<char>, Seq<Seq<char>>> {
        files_map(file_views(self.files@))
    }
}

impl Source {
    /// The reads that failed: for each path, the error text of the last failed read.
    pub closed spec fn failures(&self) -> Map<Seq<char>, Seq<char>> {
        failures_map(failure_views(self.failed@))
    }

    pub fn new() -> (r: Self)
        ensures
            r@ == Map::<Seq<char>, Seq<Seq<char>>>::empty(),
            r.failures() == Map::<Seq<char>, Seq<char>>::empty(),
    {
        Source { files: Vec::new(), failed: Vec::new() }
    }

    /// Records that reading the file `path` failed with the error text `error`.
    pub fn record_failure(&mut self, path: &str, error: &str)
        ensures
            final(self)@ == old(self)@,
            final(self).failures() == old(self).failures().insert(path@, error@),
    {
        let ghost old_v = failure_views(self.failed@);
        self.failed.push((owned(path), owned(error)));
        assert(failure_views(self.failed@) =~= old_v.push((path@, error@)));
        assert(failure_views(self.failed@).drop_last() =~= old_v);
    }

    /// The error text of the last failed read of `path`, if any.
    pub fn failure(&self, path: &str) -> (r: Option<&String>)
        ensures
            match r {
                Some(e) => self.failures().contains_key(path@) && e@ == self.failures()[path@],
                None => !self.failures().contains_key(path@),
            },
    {
        let ghost fv = failure_views(self.failed@);
        let mut j: usize = self.failed.len();
        while j > 0
            invariant
                j <= self.failed@.len(),
                fv == failure_views(self.failed@),
                forall|i: int| j <= i < fv.len() ==> fv[i].0 != path@,
            decreases j,
        {
            let f = &self.failed[j - 1];
            if crate::text::str_is(f.0.as_str(), crate::text::chars_of(path).as_slice()) {
                proof {
                    lemma_failures_map_suffix(fv, j as int, path@);
                    assert(fv.take(j as int).drop_last() =~= fv.take(j - 1));
                    assert(fv.take(j as int).last() == fv[j - 1]);
                }
                return Some(&f.1);
            }
            j = j - 1;
        }
        proof {
            lemma_failures_map_suffix(fv, 0, path@);
            assert(fv.take(0) =~= Seq::<(Seq<char>, Seq<char>)>::empty());
        }
        None
    }

    /// Adds a file, replacing any file of the same name.
    pub fn add_file(&mut self, file: SourceFile)
        ensures
            final(self)@ == old(self)@.insert(file@.0, file@.1),
            final(self).failures() == old(self).failures(),
    {
        let ghost old_v = file_views(self.files@);
        let ghost fv = file@;
        self.files.push(file);
        assert(file_views(self.files@) =~= old_v.push(fv));
        assert(file_views(self.files@).drop_last() =~= old_v);
    }

    /// Adds every file of `other`, which wins over a file of the same name.
    pub fn merge(&mut self, other: Self)
        ensures
            final(self)@ == old(self)@.union_prefer_right(other@),
            final(self).failures() == old(self).failures(),
    {
        let mut i: usize = 0;
        let ghost ov = file_views(other.files@);
        assert(ov.take(0) =~= Seq::<(Seq<char>, Seq<Seq<char>>)>::empty());
        assert(old(self)@.union_prefer_right(files_map(ov.take(0))) =~= old(self)@);
        while i < other.files.len()
            invariant
                i <= other.files@.len(),
                ov == file_views(other.files@),
                self@ == old(self)@.union_prefer_right(files_map(ov.take(i as int))),
                self.failures() == old(self).failures(),
            decreases other.files@.len() - i,
        {
            let f = other.files[i].duplicate();
            let ghost before = self@;
            self.add_file(f);
            assert(ov.take(i + 1).drop_last() =~= ov.take(i as int));
            assert(self@ =~= old(self)@.union_prefer_right(files_map(ov.take(i + 1))));
            i = i + 1;
        }
        assert(ov.take(other.files@.len() as int) =~= ov);
    }

    /// The file named `name`, if any.
    pub fn get(&self, name: &str) -> (r: Option<&SourceFile>)
        ensures
            match r {
                Some(f) => self@.contains_key(name@) && f@ == (name@, self@[name@]),
                None => !self@.contains_key(name@),
            },
    {
        let ghost fv = file_views(self.files@);
        let mut j: usize = self.files.len();
        while j > 0
            invariant
                j <= self.files@.len(),
                fv == file_views(self.files@),
                forall|i: int| j <= i < fv.len() ==> fv[i].0 != name@,
            decreases j,
        {
            let f = &self.files[j - 1];
            if crate::text::str_is(f.file_name(), crate::text::chars_of(name).as_slice()) {
                proof {
                    lemma_files_map_suffix(fv, j as int, name@);
                    assert(fv.take(j as int).drop_last() =~= fv.take(j - 1));
                    assert(fv.take(j as int).last() == fv[j - 1]);
                }
                return Some(f);
            }
            j = j - 1;
        }
        proof {
            lemma_files_map_suffix(fv, 0, name@);
            assert(fv.take(0) =~= Seq::<(Seq<char>, Seq<Seq<char>>)>::empty());
        }
        None
    }

    /// The line with number `line_n` (from 1) of file `file_name`, if both exist.
    pub fn get_line(&self, file_name: &str, line_n: usize) -> (r: Option<&String>)
        ensures
            match r {
                Some(l) => source_line(self@, file_name@, line_n as int) == Some(l@),
                None => source_line(self@, file_name@, line_n as int) is None,
            },
    {
        match self.get(file_name) {
            Some(f) => f.get_line(line_n),
            None => None,
        }
    }

    pub fn duplicate(&self) -> (r: Self)
        ensures
            r@ == self@,
            r.failures() == self.failures(),
    {
        let mut r = Source::new();
        let mut i: usize = 0;
        let ghost fv = file_views(self.files@);
        assert(fv.take(0) =~= Seq::<(Seq<char>, Seq<Seq<char>>)>::empty());
        while i < self.files.len()
            invariant
                i <= self.files@.len(),
                fv == file_views(self.files@),
                r@ == files_map(fv.take(i as int)),
                r.failures() == Map::<Seq<char>, Seq<char>>::empty(),
            decreases self.files@.len() - i,
        {
            r.add_file(self.files[i].duplicate());
            assert(fv.take(i + 1).drop_last() =~= fv.take(i as int));
            i = i + 1;
        }
        assert(fv.take(self.files@.len() as int) =~= fv);
        let mut k: usize = 0;
        let ghost gv = failure_views(self.failed@);
        assert(gv.take(0) =~= Seq::<(Seq<char>, Seq<char>)>::empty());
        while k < self.failed.len()
            invariant
                k <= self.failed@.len(),
                gv == failure_views(self.failed@),
                r@ == self@,
                r.failures() == failures_map(gv.take(k as int)),
            decreases self.failed@.len() - k,
        {
            let f = &self.failed[k];
            r.record_failure(f.0.as_str(), f.1.as_str());
            assert(gv.take(k + 1).drop_last() =~= gv.take(k as int));
            k = k + 1;
        }
        assert(gv.take(self.failed@.len() as int) =~= gv);
        r
    }
}

} // verus!

verus! {

/// An error found while compiling, with where it stands once known.
#[derive(Debug)]
pub struct CompileError {
    error: String,
    metadata: Option<MetadataReference>,
    token: Option<Token>,
    dereferenced_metadata_str: Option<String>,
}

/// The mathematical content of a `CompileError`; `formatted` is the source line with the
/// offending place underlined, once `fmt_metadata` found it.
#[verifier::ext_equal]
pub struct ErrorView {
    pub error: Seq<char>,
    pub metadata: Option<MetadataView>,
    pub token: Option<TokenView>,
    pub formatted: Option<Seq<char>>,
}

impl View for CompileError {
    type V = ErrorView;

    closed spec fn view(&self) -> ErrorView {
        ErrorView {
            error: self.error@,
            metadata: match self.metadata {
                Some(m) => Some(m@),
                None => None,
            },
            token: match self.token {
                Some(t) => Some(t@),
                None => None,
            },
            formatted: match self.dereferenced_metadata_str {
                Some(s) => Some(s@),
                None => None,
            },
        }
    }
}

/// A fresh error with message `msg` and nothing attached.
pub open spec fn new_error(msg: Seq<char>) -> ErrorView {
    ErrorView { error: msg, metadata: None, token: None, formatted: None }
}

/// `e` with token `t` attached.
pub open spec fn with_token(e: ErrorView, t: TokenView) -> ErrorView {
    ErrorView { token: Some(t), ..e }
}

/// Where an error stands: its own metadata, else that of its token.
pub open spec fn effective_metadata(e: ErrorView) -> Option<MetadataView> {
    match e.metadata {
        Some(m) => Some(m),
        None => match e.token {
            Some(t) => Some(t.metadata),
            None => None,
        },
    }
}

/// The width that the underline of an error covers: the byte length of its token's text, else 1.
pub open spec fn highlight_width(e: ErrorView) -> nat {
    match e.token {
        Some(t) => (vstd::utf8::encode_utf8(t.lexeme).len() as usize) as nat,
        None => 1,
    }
}

/// `column` spaces, a caret, then a tilde for every column after the first that is covered.
pub open spec fn highlight(column: nat, width: nat) -> Seq<char> {
    repeat(' ', column) + seq!['^'] + repeat('~', if width >= 1 { (width - 1) as nat } else { 0 })
}

/// `e` once formatted against the files `src`: the first formatting stays; otherwise, where the
/// error stands on a line that `src` holds, that line and its underline are recorded.
pub open spec fn formatted_error(e: ErrorView, src: Map<Seq<char>, Seq<Seq<char>>>) -> ErrorView {
    if e.formatted is Some {
        e
    } else {
        match effective_metadata(e) {
            Some(m) => match source_line(src, m.file_name, m.line_number as int) {
                Some(l) => ErrorView {
                    formatted: Some(
                        l + seq!['\n', '\t', '\t'] + highlight(m.column as nat, highlight_width(e)),
                    ),
                    ..e
                },
                None => e,
            },
            None => e,
        }
    }
}

impl CompileError {
    pub fn new(error: String) -> (r: Self)
        ensures
            r@ == new_error(error@),
    {
        CompileError { error, metadata: None, token: None, dereferenced_metadata_str: None }
    }

    pub fn attach_metadata(self, metadata: MetadataReference) -> (r: Self)
        ensures
            r@ == (ErrorView { metadata: Some(metadata@), ..self@ }),
    {
        let mut s = self;
        s.metadata = Some(metadata);
        s
    }

    pub fn attach_token(self, token: Token) -> (r: Self)
        ensures
            r@ == with_token(self@, token@),
    {
        let mut s = self;
        s.token = Some(token);
        s
    }

    /// Records the source line where the error stands, underlined, unless already recorded.
    pub fn fmt_metadata(self, source: &Source) -> (r: Self)
        ensures
            r@ == formatted_error(self@, source@),
    {
        let mut s = self;
        if s.dereferenced_metadata_str.is_some() {
            return s;
        }
        let metadata = match &s.metadata {
            Some(m) => Some(m.duplicate()),
            None => match &s.token {
                Some(t) => Some(t.metadata.duplicate()),
                None => None,
            },
        };
        if let Some(m) = metadata {
            let line = source.get_line(m.file_name(), m.line_number());
            let lexeme_len: usize = match &s.token {
                Some(t) => t.lexeme.as_str().len(),
                None => 1,
            };
            let mut marks = String::new();
            let mut i: usize = 0;
            while i < m.column()
                invariant
                    i <= m@.column,
                    marks@ == repeat(' ', i as nat),
                decreases m@.column - i,
            {
                push_char(&mut marks, ' ');
                assert(marks@ =~= repeat(' ', (i + 1) as nat));
                i = i + 1;
            }
            push_char(&mut marks, '^');
            let ghost prefix = marks@;
            let mut j: usize = 1;
            while j < lexeme_len
                invariant
                    1 <= j,
                    j <= lexeme_len || lexeme_len == 0,
                    lexeme_len == 0 ==> j == 1,
                    marks@ == prefix + repeat('~', (j - 1) as nat),
                decreases lexeme_len - j,
            {
                push_char(&mut marks, '~');
                assert(marks@ =~= prefix + repeat('~', j as nat));
                j = j + 1;
            }
            assert(marks@ =~= highlight(m@.column as nat, highlight_width(s@)));
            if let Some(l) = line {
                let mut text = l.clone();
                push_str(&mut text, "\n\t\t");
                let ghost lv = text@;
                push_str(&mut text, marks.as_str());
                proof {
                    reveal_strlit("\n\t\t");
                }
                assert(text@ =~= l@ + seq!['\n', '\t', '\t'] + marks@);
                assert(effective_metadata(self@) == Some(m@));
                assert(source_line(source@, m@.file_name, m@.line_number as int) == Some(l@));
                s.dereferenced_metadata_str = Some(text);
                assert(s@.formatted == formatted_error(self@, source@).formatted);
                assert(s@ =~= formatted_error(self@, source@));
            }
        }
        s
    }

    /// The error with ` :: ` and `detail` added to its message.
    pub(crate) fn with_detail(self, detail: &str) -> (r: Self)
        ensures
            r@ == (ErrorView { error: self@.error + " :: "@ + detail@, ..self@ }),
    {
        let mut s = self;
        push_str(&mut s.error, " :: ");
        push_str(&mut s.error, detail);
        s
    }

    /// The message of the error.
    pub fn error(&self) -> (r: &str)
        ensures
            r@ == self@.error,
    {
        self.error.as_str()
    }

    /// The underlined source line, once recorded.
    pub fn formatted(&self) -> (r: Option<&String>)
        ensures
            match r {
                Some(s) => self@.formatted == Some(s@),
                None => self@.formatted is None,
            },
    {
        match &self.dereferenced_metadata_str {
            Some(s) => Some(s),
            None => None,
        }
    }
}

} // verus!

verus! {

/// The views of a sequence of tokens.
pub open spec fn token_views(v: Seq<Token>) -> Seq<TokenView> {
    v.map_values(|t: Token| t@)
}

proof fn lemma_files_map_finite(fs: Seq<(Seq<char>, Seq<Seq<char>>)>)
    ensures
        files_map(fs).dom().finite(),
    decreases fs.len(),
{
    if fs.len() > 0 {
        lemma_files_map_finite(fs.drop_last());
    }
}

/// The files of a `Source` are finitely many.
pub proof fn lemma_source_finite(s: &Source)
    ensures
        s@.dom().finite(),
{
    lemma_files_map_finite(file_views(s.files@));
}

} // verus!

verus! {

/// The error for a file that is not among the files given: where reading it failed, the
/// error text of the failed read follows ` :: `.
pub open spec fn missing_error(e: ErrorView, failures: Map<Seq<char>, Seq<char>>, path: Seq<char>) -> ErrorView {
    if failures.contains_key(path) {
        ErrorView { error: e.error + " :: "@ + failures[path], ..e }
    } else {
        e
    }
}

/// The tokens of a source tree, read front to back, with the files they came from.
pub struct TokenStream {
    tokens: std::collections::VecDeque<Token>,
    pub source: Source,
}

/// What tokenizing a source tree needs before it can run: nothing more (every file it reads is
/// given, or the one that is not could not be read), a file that is not among the files given,
/// or nothing it could use, because the compiler does not return on it.
pub enum FileRequest {
    Ready,
    Load(String),
    Unsupported,
}

impl View for TokenStream {
    type V = Seq<TokenView>;

    closed spec fn view(&self) -> Seq<TokenView> {
        token_views(self.tokens@)
    }
}

impl TokenStream {
    /// The files the tokens came from.
    pub closed spec fn files(&self) -> Map<Seq<char>, Seq<Seq<char>>> {
        self.source@
    }

    pub fn new() -> (r: Self)
        ensures
            r@ == Seq::<TokenView>::empty(),
            r.files() == Map::<Seq<char>, Seq<Seq<char>>>::empty(),
    {
        let r = TokenStream { tokens: std::collections::VecDeque::new(), source: Source::new() };
        assert(token_views(r.tokens@) =~= Seq::<TokenView>::empty());
        r
    }

    /// Tokenizes the source tree whose entry is `file_path`, reading files from `files`, and
    /// adds its tokens. The tokens of the lines before an error are kept; on success an
    /// end-of-file token follows and the files read are recorded in `source`.
    pub fn tokenize_source_tree(&mut self, file_path: &str, files: &Source) -> (r: Result<(), CompileError>)
        requires
            tree_run(files@, file_path@, old(self).files()).halt != Some(HaltView::Stuck),
        ensures
            ({
                let o = tree_run(files@, file_path@, old(self).files());
                match o.halt {
                    None => {
                        &&& r is Ok
                        &&& final(self)@ == old(self)@ + o.tokens + seq![eof_token()]
                        &&& final(self).files() == old(self).files().union_prefer_right(
                            o.state.sources,
                        )
                    },
                    Some(h) => {
                        &&& final(self)@ == old(self)@ + o.tokens
                        &&& final(self).files() == old(self).files()
                        &&& r matches Err(e) && match h {
                            HaltView::Fail(x) => e@ == x,
                            HaltView::Missing(x, p) => e@ == missing_error(x, files.failures(), p),
                            HaltView::Stuck => false,
                        }
                    },
                }
            }),
    {
        let (toks, srcs, halt) = tokenize_tree(files, file_path, &self.source);
        let mut i: usize = 0;
        let ghost before = self@;
        while i < toks.len()
            invariant
                i <= toks@.len(),
                self@ == before + token_views(toks@).take(i as int),
                self.files() == old(self).files(),
            decreases toks@.len() - i,
        {
            let ghost prev = token_views(self.tokens@);
            self.tokens.push_back(toks[i].duplicate());
            assert(token_views(self.tokens@) =~= prev.push(toks@[i as int]@));
            assert(token_views(toks@).take(i + 1) =~= token_views(toks@).take(i as int).push(
                toks@[i as int]@,
            ));
            i = i + 1;
        }
        assert(token_views(toks@).take(toks@.len() as int) =~= token_views(toks@));
        match halt {
            None => {
                self.source.merge(srcs);
                let ghost prev = token_views(self.tokens@);
                let e = Token::eof();
                self.tokens.push_back(e);
                assert(token_views(self.tokens@) =~= prev.push(eof_token()));
                assert(self@ =~= before + token_views(toks@) + seq![eof_token()]);
                Ok(())
            },
            Some(Halt::Fail(e)) => Err(e),
            Some(Halt::Missing(e, p)) => match files.failure(p.as_str()) {
                Some(detail) => Err(e.with_detail(detail.as_str())),
                None => Err(e),
            },
            Some(Halt::Stuck) => {
                proof {
                    assert(false);
                }
                Err(CompileError::new(String::new()))
            },
        }
    }

    /// What tokenizing the source tree `file_path` over `files` needs before it can run.
    pub fn next_file_request(&self, file_path: &str, files: &Source) -> (r: FileRequest)
        ensures
            match tree_run(files@, file_path@, self.files()).halt {
                Some(HaltView::Missing(_, p)) => if files.failures().contains_key(p) {
                    r is Ready
                } else {
                    r matches FileRequest::Load(s) && s@ == p
                },
                Some(HaltView::Stuck) => r is Unsupported,
                _ => r is Ready,
            },
    {
        let (_toks, _srcs, halt) = tokenize_tree(files, file_path, &self.source);
        match halt {
            Some(Halt::Missing(_e, p)) => if files.failure(p.as_str()).is_some() {
                FileRequest::Ready
            } else {
                FileRequest::Load(p)
            },
            Some(Halt::Stuck) => FileRequest::Unsupported,
            _ => FileRequest::Ready,
        }
    }

    /// Takes the first token out.
    pub fn next(&mut self) -> (r: Option<Token>)
        ensures
            match r {
                Some(t) => old(self)@.len() > 0 && t@ == old(self)@[0] && final(self)@ == old(
                    self,
                )@.drop_first(),
                None => old(self)@.len() == 0 && final(self)@ == old(self)@,
            },
            final(self).files() == old(self).files(),
    {
        let r = self.tokens.pop_front();
        proof {
            if r is Some {
                assert(token_views(self.tokens@) =~= token_views(old(self).tokens@).drop_first());
            }
        }
        r
    }

    /// The first token, if any.
    pub fn peek(&self) -> (r: Option<&Token>)
        ensures
            match r {
                Some(t) => self@.len() > 0 && t@ == self@[0],
                None => self@.len() == 0,
            },
    {
        if self.tokens.len() > 0 {
            Some(&self.tokens[0])
        } else {
            None
        }
    }

    /// Whether the first token is of kind `kind`.
    pub fn peek_is(&self, kind: TokenKind) -> (r: bool)
        ensures
            r == (self@.len() > 0 && self@[0].kind == kind),
    {
        if let Some(t) = self.peek() {
            t.kind == kind
        } else {
            false
        }
    }

    /// Whether the first token is the end-of-file token.
    pub fn eof(&self) -> (r: bool)
        ensures
            r == (self@.len() > 0 && self@[0].kind == TokenKind::EOF),
    {
        self.peek_is(TokenKind::EOF)
    }

    /// The files the tokens came from.
    pub fn source(&self) -> (r: &Source)
        ensures
            r@ == self.files(),
    {
        &self.source
    }

    /// The kind of the token at position `i`.
    pub fn kind_at(&self, i: usize) -> (r: TokenKind)
        requires
            i < self@.len(),
        ensures
            r == self@[i as int].kind,
    {
        self.tokens[i].kind
    }

    /// The number of tokens left.
    pub fn len(&self) -> (r: usize)
        ensures
            r == self@.len(),
    {
        self.tokens.len()
    }
}

} // verus!

verus! {

/// How a token kind is written out: its variant's name, and for a primitive type the
/// type's keyword, quoted, in brackets.
pub open spec fn kind_text(k: TokenKind) -> Seq<char> {
    match k {
        TokenKind::Include => "Include"@,
        TokenKind::StringLiteral => "StringLiteral"@,
        TokenKind::NumberLiteral => "NumberLiteral"@,
        TokenKind::Identifer => "Identifer"@,
        TokenKind::KWfn => "KWfn"@,
        TokenKind::KWlet => "KWlet"@,
        TokenKind::KWreturn => "KWreturn"@,
        TokenKind::KWif => "KWif"@,
        TokenKind::KWelse => "KWelse"@,
        TokenKind::KWmatch => "KWmatch"@,
        TokenKind::KWwhile => "KWwhile"@,
        TokenKind::KWfor => "KWfor"@,
        TokenKind::KWin => "KWin"@,
        TokenKind::KWbreak => "KWbreak"@,
        TokenKind::KWcontinue => "KWcontinue"@,
        TokenKind::KWstruct => "KWstruct"@,
        TokenKind::KWenum => "KWenum"@,
        TokenKind::KWconst => "KWconst"@,
        TokenKind::KWstatic => "KWstatic"@,
        TokenKind::Primitive(p) => "Primitive(\""@ + primitive_text(p) + "\")"@,
        TokenKind::Slash => "Slash"@,
        TokenKind::Plus => "Plus"@,
        TokenKind::Star => "Star"@,
        TokenKind::Dash => "Dash"@,
        TokenKind::And => "And"@,
        TokenKind::Carot => "Carot"@,
        TokenKind::Percent => "Percent"@,
        TokenKind::Dollar => "Dollar"@,
        TokenKind::At => "At"@,
        TokenKind::Exclaim => "Exclaim"@,
        TokenKind::Assign => "Assign"@,
        TokenKind::Colon => "Colon"@,
        TokenKind::SemiColon => "SemiColon"@,
        TokenKind::OpenCurly => "OpenCurly"@,
        TokenKind::ClosedCurly => "ClosedCurly"@,
        TokenKind::OpenBracket => "OpenBracket"@,
        TokenKind::ClosedBracket => "ClosedBracket"@,
        TokenKind::OpenParenth => "OpenParenth"@,
        TokenKind::ClosedParenth => "ClosedParenth"@,
        TokenKind::Comma => "Comma"@,
        TokenKind::Dot => "Dot"@,
        TokenKind::Apostro => "Apostro"@,
        TokenKind::Greater => "Greater"@,
        TokenKind::Lesser => "Lesser"@,
        TokenKind::Compare => "Compare"@,
        TokenKind::GreaterEq => "GreaterEq"@,
        TokenKind::LesserEq => "LesserEq"@,
        TokenKind::DoublePipe => "DoublePipe"@,
        TokenKind::Arrow => "Arrow"@,
        TokenKind::Pipe => "Pipe"@,
        TokenKind::BackTick => "BackTick"@,
        TokenKind::Grave => "Grave"@,
        TokenKind::EOF => "EOF"@,
    }
}

/// The decimal numeral of a position.
pub open spec fn position_text(n: usize) -> Seq<char> {
    decimal(n as nat)
}

/// How a token is written out: `<Kind `text` [line:column]>`.
pub open spec fn token_text(t: TokenView) -> Seq<char> {
    "<"@ + kind_text(t.kind) + " `"@ + t.lexeme + "` ["@ + position_text(t.metadata.line_number)
        + ":"@ + position_text(t.metadata.column) + "]>"@
}

/// How a place in the sources is written out: `[file:line:column]`.
pub open spec fn metadata_text(m: MetadataView) -> Seq<char> {
    "["@ + m.file_name + ":"@ + position_text(m.line_number) + ":"@ + position_text(m.column)
        + "]"@
}

/// How a sequence of tokens is written out: each token, then a line break.
pub open spec fn stream_text(ts: Seq<TokenView>) -> Seq<char>
    decreases ts.len(),
{
    if ts.len() == 0 {
        Seq::empty()
    } else {
        stream_text(ts.drop_last()) + token_text(ts.last()) + "\n"@
    }
}

/// The first part of an error written out: the message, and the token, if any.
pub open spec fn error_header(e: ErrorView) -> Seq<char> {
    "Error in compilation: "@ + e.error + match e.token {
        Some(t) => " >> "@ + token_text(t) + " :"@,
        None => Seq::empty(),
    }
}

/// The second part of an error written out: where it stands, if known, with the underlined
/// source line once recorded.
pub open spec fn error_body(e: ErrorView) -> Seq<char> {
    match effective_metadata(e) {
        Some(m) => "at "@ + position_text(m.line_number) + ":"@ + position_text(m.column)
            + " in file "@ + m.file_name + match e.formatted {
            Some(d) => ":\n\t\t "@ + d,
            None => Seq::empty(),
        },
        None => Seq::empty(),
    }
}

/// How an error is written out: its header, a line break and a tab, then its body.
pub open spec fn error_text(e: ErrorView) -> Seq<char> {
    error_header(e) + "\n\t"@ + error_body(e)
}

impl TokenKind {
    /// The kind written out as `kind_text` says.
    pub fn to_display_string(&self) -> (r: String)
        ensures
            r@ == kind_text(*self),
    {
        match *self {
        TokenKind::Include => owned("Include"),
        TokenKind::StringLiteral => owned("StringLiteral"),
        TokenKind::NumberLiteral => owned("NumberLiteral"),
        TokenKind::Identifer => owned("Identifer"),
        TokenKind::KWfn => owned("KWfn"),
        TokenKind::KWlet => owned("KWlet"),
        TokenKind::KWreturn => owned("KWreturn"),
        TokenKind::KWif => owned("KWif"),
        TokenKind::KWelse => owned("KWelse"),
        TokenKind::KWmatch => owned("KWmatch"),
        TokenKind::KWwhile => owned("KWwhile"),
        TokenKind::KWfor => owned("KWfor"),
        TokenKind::KWin => owned("KWin"),
        TokenKind::KWbreak => owned("KWbreak"),
        TokenKind::KWcontinue => owned("KWcontinue"),
        TokenKind::KWstruct => owned("KWstruct"),
        TokenKind::KWenum => owned("KWenum"),
        TokenKind::KWconst => owned("KWconst"),
        TokenKind::KWstatic => owned("KWstatic"),
        TokenKind::Primitive(p) => {
            let mut s = owned("Primitive(\"");
            push_str(&mut s, primitive_name(p).as_str());
            push_str(&mut s, "\")");
            s
        },
        TokenKind::Slash => owned("Slash"),
        TokenKind::Plus => owned("Plus"),
        TokenKind::Star => owned("Star"),
        TokenKind::Dash => owned("Dash"),
        TokenKind::And => owned("And"),
        TokenKind::Carot => owned("Carot"),
        TokenKind::Percent => owned("Percent"),
        TokenKind::Dollar => owned("Dollar"),
        TokenKind::At => owned("At"),
        TokenKind::Exclaim => owned("Exclaim"),
        TokenKind::Assign => owned("Assign"),
        TokenKind::Colon => owned("Colon"),
        TokenKind::SemiColon => owned("SemiColon"),
        TokenKind::OpenCurly => owned("OpenCurly"),
        TokenKind::ClosedCurly => owned("ClosedCurly"),
        TokenKind::OpenBracket => owned("OpenBracket"),
        TokenKind::ClosedBracket => owned("ClosedBracket"),
        TokenKind::OpenParenth => owned("OpenParenth"),
        TokenKind::ClosedParenth => owned("ClosedParenth"),
        TokenKind::Comma => owned("Comma"),
        TokenKind::Dot => owned("Dot"),
        TokenKind::Apostro => owned("Apostro"),
        TokenKind::Greater => owned("Greater"),
        TokenKind::Lesser => owned("Lesser"),
        TokenKind::Compare => owned("Compare"),
        TokenKind::GreaterEq => owned("GreaterEq"),
        TokenKind::LesserEq => owned("LesserEq"),
        TokenKind::DoublePipe => owned("DoublePipe"),
        TokenKind::Arrow => owned("Arrow"),
        TokenKind::Pipe => owned("Pipe"),
        TokenKind::BackTick => owned("BackTick"),
        TokenKind::Grave => owned("Grave"),
        TokenKind::EOF => owned("EOF"),
        }
    }
}


impl Token {
    /// The token written out as `token_text` says.
    pub fn to_display_string(&self) -> (r: String)
        ensures
            r@ == token_text(self@),
    {
        let mut s = owned("<");
        push_str(&mut s, self.kind.to_display_string().as_str());
        push_str(&mut s, " `");
        push_str(&mut s, self.lexeme.as_str());
        push_str(&mut s, "` [");
        push_str(&mut s, decimal_string(self.metadata.line_number()).as_str());
        push_str(&mut s, ":");
        push_str(&mut s, decimal_string(self.metadata.column()).as_str());
        push_str(&mut s, "]>");
        s
    }
}

impl MetadataReference {
    /// The place written out as `metadata_text` says.
    pub fn to_debug_string(&self) -> (r: String)
        ensures
            r@ == metadata_text(self@),
    {
        let mut s = owned("[");
        push_str(&mut s, self.file_name());
        push_str(&mut s, ":");
        push_str(&mut s, decimal_string(self.line_number()).as_str());
        push_str(&mut s, ":");
        push_str(&mut s, decimal_string(self.column()).as_str());
        push_str(&mut s, "]");
        s
    }
}

impl TokenStream {
    /// The tokens left, written out as `stream_text` says.
    pub fn to_display_string(&self) -> (r: String)
        ensures
            r@ == stream_text(self@),
    {
        let mut s = String::new();
        let n = self.tokens.len();
        let mut i: usize = 0;
        while i < n
            invariant
                n == self@.len(),
                i <= n,
                s@ == stream_text(self@.take(i as int)),
            decreases n - i,
        {
            let t = self.tokens[i].to_display_string();
            push_str(&mut s, t.as_str());
            push_str(&mut s, "\n");
            assert(self@.take(i + 1).drop_last() =~= self@.take(i as int));
            i = i + 1;
        }
        assert(self@.take(n as int) =~= self@);
        s
    }
}

impl CompileError {
    /// The error written out as `error_text` says.
    pub fn to_display_string(&self) -> (r: String)
        ensures
            r@ == error_text(self@),
    {
        let mut s = self.header_string();
        push_str(&mut s, "\n\t");
        let body = self.body_string();
        push_str(&mut s, body.as_str());
        s
    }

    fn header_string(&self) -> (r: String)
        ensures
            r@ == error_header(self@),
    {
        let mut s = owned("Error in compilation: ");
        push_str(&mut s, self.error.as_str());
        if let Some(t) = &self.token {
            push_str(&mut s, " >> ");
            push_str(&mut s, t.to_display_string().as_str());
            push_str(&mut s, " :");
        }
        s
    }

    fn body_string(&self) -> (r: String)
        ensures
            r@ == error_body(self@),
    {
        let place = match &self.metadata {
            Some(m) => Some(m),
            None => match &self.token {
                Some(t) => Some(&t.metadata),
                None => None,
            },
        };
        let mut s = String::new();
        if let Some(m) = place {
            push_str(&mut s, "at ");
            push_str(&mut s, decimal_string(m.line_number()).as_str());
            push_str(&mut s, ":");
            push_str(&mut s, decimal_string(m.column()).as_str());
            push_str(&mut s, " in file ");
            push_str(&mut s, m.file_name());
            if let Some(d) = &self.dereferenced_metadata_str {
                push_str(&mut s, ":\n\t\t ");
                push_str(&mut s, d.as_str());
            }
        }
        s
    }
}

} // verus!

verus! {

/// Formatting an error a second time against the same files changes nothing.
pub proof fn law_format_idempotent(e: ErrorView, src: Map<Seq<char>, Seq<Seq<char>>>)
    ensures
        formatted_error(formatted_error(e, src), src) == formatted_error(e, src),
{
}

/// Once an error has been formatted, formatting it against any files keeps the first result.
pub proof fn law_format_keeps_first(
    e: ErrorView,
    first: Map<Seq<char>, Seq<Seq<char>>>,
    later: Map<Seq<char>, Seq<Seq<char>>>,
)
    requires
        formatted_error(e, first).formatted is Some,
    ensures
        formatted_error(formatted_error(e, first), later) == formatted_error(e, first),
{
}

/// A line read from the files after a file was added is the line of that file.
pub proof fn law_line_of_added_file(
    src: Map<Seq<char>, Seq<Seq<char>>>,
    name: Seq<char>,
    lines: Seq<Seq<char>>,
    line_n: int,
)
    requires
        1 <= line_n <= lines.len(),
    ensures
        source_line(src.insert(name, lines), name, line_n) == Some(lines[line_n - 1]),
{
}

/// A stream of tokens none of which is the end-of-file token, followed by the end-of-file token
/// (as `tokenize_source_tree` leaves a new stream): once `i` tokens are taken, the first token
/// left is the end-of-file token exactly when every other token has been taken.
pub proof fn law_eof_after_last_token(toks: Seq<TokenView>, i: int)
    requires
        crate::lexer::no_eof(toks),
        0 <= i <= toks.len(),
    ensures
        ({
            let rest = (toks + seq![eof_token()]).skip(i);
            (rest.len() > 0 && rest[0].kind == TokenKind::EOF) <==> i == toks.len()
        }),
{
    let rest = (toks + seq![eof_token()]).skip(i);
    assert(rest[0] == (toks + seq![eof_token()])[i]);
    if i < toks.len() {
        assert((toks + seq![eof_token()])[i] == toks[i]);
    }
}

/// Written out, a token stream is its first token, a line break, then the rest of the stream
/// written out: what `next` takes off the front is what the text of the stream starts with.
pub proof fn law_stream_text_front(ts: Seq<TokenView>)
    requires
        ts.len() > 0,
    ensures
        stream_text(ts) == token_text(ts[0]) + "\n"@ + stream_text(ts.drop_first()),
    decreases ts.len(),
{
    if ts.len() == 1 {
        assert(ts.drop_first() =~= Seq::<TokenView>::empty());
        assert(ts.drop_last() =~= Seq::<TokenView>::empty());
        assert(stream_text(ts.drop_last()) =~= Seq::<char>::empty());
        assert(stream_text(ts) =~= token_text(ts[0]) + "\n"@ + stream_text(ts.drop_first()));
    } else {
        law_stream_text_front(ts.drop_last());
        assert(ts.drop_last().drop_first() =~= ts.drop_first().drop_last());
        assert(ts.drop_first().last() == ts.last());
        assert(ts.drop_last()[0] == ts[0]);
        assert(stream_text(ts) =~= token_text(ts[0]) + "\n"@ + stream_text(ts.drop_first()));
    }
}


/// How a source file is written out: `<source file :: NAME>`.
pub open spec fn source_file_text(name: Seq<char>) -> Seq<char> {
    "<source file :: "@ + name + ">"@
}

impl SourceFile {
    /// The file written out as `source_file_text` says.
    pub fn to_debug_string(&self) -> (r: String)
        ensures
            r@ == source_file_text(self@.0),
    {
        let mut s = owned("<source file :: ");
        push_str(&mut s, self.file_name.as_str());
        push_str(&mut s, ">");
        s
    }
}

} // verus!
