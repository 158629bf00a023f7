//! Splitting SGS source text into tokens.
//!
//! The lexer works on the characters of the source. Whitespace and comments
//! (`// ...` to the end of the line, `/* ... */`) separate tokens. An
//! interpolated string `$"text {expr} text"` becomes a start token, text
//! pieces, the tokens of each embedded expression between an opening and a
//! closing token, and an end token.
use vstd::prelude::*;
use vstd::string::*;
use vstd::utf8::{char_is_scalar, encode_scalar, encode_utf8};
use crate::text::text;

verus! {

broadcast use vstd::seq::group_seq_axioms;

/// A punctuation or operator token.
#[derive(Debug, Clone, Copy, PartialEq, Eq, Structural)]
pub enum Sym {
    At,
    Semi,
    Colon,
    Comma,
    LParen,
    RParen,
    LBrace,
    RBrace,
    LBracket,
    RBracket,
    Dot,
    Pipe,
    Arrow,
    EqEq,
    NotEq,
    Le,
    Ge,
    Lt,
    Gt,
    Assign,
    PlusPlusAssign,
    PlusPlus,
    PlusAssign,
    MinusAssign,
    StarAssign,
    SlashAssign,
    Plus,
    Minus,
    Star,
    Slash,
}

/// What a token is.
#[derive(Debug)]
pub enum TokKind {
    /// A name; keywords are names too.
    Ident(String),
    /// A number literal, as written.
    Number(String),
    /// A string literal; the text between the quotes.
    Str(String),
    /// `$"`, which opens an interpolated string.
    InterpStart,
    /// A text piece of an interpolated string.
    InterpText(String),
    /// `{` within an interpolated string.
    InterpOpen,
    /// `}` that ends an embedded expression.
    InterpClose,
    /// `"` that closes an interpolated string.
    InterpEnd,
    Sym(Sym),
}

/// A token and the characters it covers: `start..end`, counted in characters.
#[derive(Debug)]
pub struct Token {
    pub kind: TokKind,
    pub start: usize,
    pub end: usize,
}

pub enum STokKind {
    Ident(Seq<char>),
    Number(Seq<char>),
    Str(Seq<char>),
    InterpStart,
    InterpText(Seq<char>),
    InterpOpen,
    InterpClose,
    InterpEnd,
    Sym(Sym),
}

pub struct SToken {
    pub kind: STokKind,
    pub start: usize,
    pub end: usize,
}

impl View for TokKind {
    type V = STokKind;

    open spec fn view(&self) -> STokKind {
        match self {
            TokKind::Ident(s) => STokKind::Ident(s@),
            TokKind::Number(s) => STokKind::Number(s@),
            TokKind::Str(s) => STokKind::Str(s@),
            TokKind::InterpStart => STokKind::InterpStart,
            TokKind::InterpText(s) => STokKind::InterpText(s@),
            TokKind::InterpOpen => STokKind::InterpOpen,
            TokKind::InterpClose => STokKind::InterpClose,
            TokKind::InterpEnd => STokKind::InterpEnd,
            TokKind::Sym(s) => STokKind::Sym(*s),
        }
    }
}

impl View for Token {
    type V = SToken;

    open spec fn view(&self) -> SToken {
        SToken { kind: self.kind@, start: self.start, end: self.end }
    }
}

pub open spec fn view_tokens(s: Seq<Token>) -> Seq<SToken> {
    Seq::new(s.len(), |i: int| s[i]@)
}

/// Where the lexer is: in ordinary code, in the text of an interpolated
/// string, or in an expression embedded in one.
#[derive(Debug, Clone, Copy, PartialEq, Eq, Structural)]
pub enum Mode {
    Code,
    Text,
    Embedded,
}

/// Why the source could not be split into tokens, and where (a character index).
pub struct LexError {
    pub pos: usize,
    pub expected: String,
}

pub struct SLexError {
    pub pos: int,
    pub expected: Seq<char>,
}

impl View for LexError {
    type V = SLexError;

    open spec fn view(&self) -> SLexError {
        SLexError { pos: self.pos as int, expected: self.expected@ }
    }
}

// ---------------------------------------------------------------------------
// Character classes and scanning
// ---------------------------------------------------------------------------

pub open spec fn is_space(c: char) -> bool {
    c == ' ' || c == '\t' || c == '\n' || c == '\r'
}

pub open spec fn is_digit(c: char) -> bool {
    '0' <= c && c <= '9'
}

pub open spec fn is_ident_start(c: char) -> bool {
    ('a' <= c && c <= 'z') || ('A' <= c && c <= 'Z') || c == '_'
}

pub open spec fn is_ident_char(c: char) -> bool {
    is_ident_start(c) || is_digit(c)
}

/// The end of the run of identifier characters starting at `i`.
pub open spec fn ident_end(s: Seq<char>, i: int) -> int
    decreases s.len() - i,
{
    if 0 <= i < s.len() && is_ident_char(s[i]) {
        ident_end(s, i + 1)
    } else {
        i
    }
}

/// The end of the run of digits starting at `i`.
pub open spec fn digits_end(s: Seq<char>, i: int) -> int
    decreases s.len() - i,
{
    if 0 <= i < s.len() && is_digit(s[i]) {
        digits_end(s, i + 1)
    } else {
        i
    }
}

/// The index of the first character at or after `i` that is `c`, or the length.
pub open spec fn find_char(s: Seq<char>, i: int, c: char) -> int
    decreases s.len() - i,
{
    if 0 <= i < s.len() && s[i] != c {
        find_char(s, i + 1, c)
    } else if i < 0 {
        0
    } else {
        i
    }
}

/// The index of the first `"` or `{` at or after `i`, or the length.
pub open spec fn text_end(s: Seq<char>, i: int) -> int
    decreases s.len() - i,
{
    if 0 <= i < s.len() && s[i] != '"' && s[i] != '{' {
        text_end(s, i + 1)
    } else {
        i
    }
}

/// The index just after the first `*/` at or after `i`, if there is one.
pub open spec fn comment_end(s: Seq<char>, i: int) -> Option<int>
    decreases s.len() - i,
{
    if i < 0 || i + 1 >= s.len() {
        None
    } else if s[i] == '*' && s[i + 1] == '/' {
        Some(i + 2)
    } else {
        comment_end(s, i + 1)
    }
}

/// The character at `i`, or `\0` past the end.
pub open spec fn char_at(s: Seq<char>, i: int) -> char {
    if 0 <= i < s.len() {
        s[i]
    } else {
        '\0'
    }
}

/// The symbol starting at `i` and its length: the longest one that matches.
pub open spec fn symbol_at(s: Seq<char>, i: int) -> Option<(Sym, int)> {
    let c = char_at(s, i);
    let d = char_at(s, i + 1);
    let e = char_at(s, i + 2);
    if c == '+' && d == '+' && e == '=' {
        Some((Sym::PlusPlusAssign, 3))
    } else if c == '+' && d == '+' {
        Some((Sym::PlusPlus, 2))
    } else if c == '+' && d == '=' {
        Some((Sym::PlusAssign, 2))
    } else if c == '-' && d == '=' {
        Some((Sym::MinusAssign, 2))
    } else if c == '-' && d == '>' {
        Some((Sym::Arrow, 2))
    } else if c == '*' && d == '=' {
        Some((Sym::StarAssign, 2))
    } else if c == '/' && d == '=' {
        Some((Sym::SlashAssign, 2))
    } else if c == '=' && d == '=' {
        Some((Sym::EqEq, 2))
    } else if c == '!' && d == '=' {
        Some((Sym::NotEq, 2))
    } else if c == '<' && d == '=' {
        Some((Sym::Le, 2))
    } else if c == '>' && d == '=' {
        Some((Sym::Ge, 2))
    } else if c == '+' {
        Some((Sym::Plus, 1))
    } else if c == '-' {
        Some((Sym::Minus, 1))
    } else if c == '*' {
        Some((Sym::Star, 1))
    } else if c == '/' {
        Some((Sym::Slash, 1))
    } else if c == '=' {
        Some((Sym::Assign, 1))
    } else if c == '<' {
        Some((Sym::Lt, 1))
    } else if c == '>' {
        Some((Sym::Gt, 1))
    } else if c == '@' {
        Some((Sym::At, 1))
    } else if c == ';' {
        Some((Sym::Semi, 1))
    } else if c == ':' {
        Some((Sym::Colon, 1))
    } else if c == ',' {
        Some((Sym::Comma, 1))
    } else if c == '(' {
        Some((Sym::LParen, 1))
    } else if c == ')' {
        Some((Sym::RParen, 1))
    } else if c == '{' {
        Some((Sym::LBrace, 1))
    } else if c == '}' {
        Some((Sym::RBrace, 1))
    } else if c == '[' {
        Some((Sym::LBracket, 1))
    } else if c == ']' {
        Some((Sym::RBracket, 1))
    } else if c == '.' {
        Some((Sym::Dot, 1))
    } else if c == '|' {
        Some((Sym::Pipe, 1))
    } else {
        None
    }
}

/// One step of the lexer.
pub enum Step {
    /// Nothing to emit; go on at the index.
    Skip(int),
    /// A token, and the index and mode to go on with.
    Emit(STokKind, int, Mode),
    /// The end of the source.
    Done,
    Fail(Seq<char>),
}

/// What the lexer does at index `i` in `mode`.
pub open spec fn step(s: Seq<char>, i: int, mode: Mode) -> Step {
    if mode == Mode::Text {
        if i >= s.len() {
            Step::Fail("closing quote"@)
        } else if s[i] == '"' {
            Step::Emit(STokKind::InterpEnd, i + 1, Mode::Code)
        } else if s[i] == '{' {
            Step::Emit(STokKind::InterpOpen, i + 1, Mode::Embedded)
        } else {
            let j = text_end(s, i);
            Step::Emit(STokKind::InterpText(s.subrange(i, j)), j, Mode::Text)
        }
    } else if i >= s.len() {
        if mode == Mode::Code {
            Step::Done
        } else {
            Step::Fail("closing brace"@)
        }
    } else {
        let c = s[i];
        if is_space(c) {
            Step::Skip(i + 1)
        } else if c == '/' && char_at(s, i + 1) == '/' {
            Step::Skip(find_char(s, i, '\n'))
        } else if c == '/' && char_at(s, i + 1) == '*' {
            match comment_end(s, i + 2) {
                Some(j) => Step::Skip(j),
                None => Step::Fail("end of comment"@),
            }
        } else if mode == Mode::Embedded && c == '}' {
            Step::Emit(STokKind::InterpClose, i + 1, Mode::Text)
        } else if is_ident_start(c) {
            let j = ident_end(s, i);
            Step::Emit(STokKind::Ident(s.subrange(i, j)), j, mode)
        } else if is_digit(c) {
            let j = digits_end(s, i);
            if char_at(s, j) == '.' && is_digit(char_at(s, j + 1)) {
                let k = digits_end(s, j + 1);
                Step::Emit(STokKind::Number(s.subrange(i, k)), k, mode)
            } else {
                Step::Emit(STokKind::Number(s.subrange(i, j)), j, mode)
            }
        } else if c == '"' {
            let j = find_char(s, i + 1, '"');
            if j < s.len() {
                Step::Emit(STokKind::Str(s.subrange(i + 1, j)), j + 1, mode)
            } else {
                Step::Fail("closing quote"@)
            }
        } else if c == '$' && char_at(s, i + 1) == '"' && mode == Mode::Code {
            Step::Emit(STokKind::InterpStart, i + 2, Mode::Text)
        } else {
            match symbol_at(s, i) {
                Some((sym, n)) => Step::Emit(STokKind::Sym(sym), i + n, mode),
                None => Step::Fail("token"@),
            }
        }
    }
}

/// The tokens of `s` from index `i` in `mode`.
pub open spec fn lex_from(s: Seq<char>, i: int, mode: Mode) -> Result<Seq<SToken>, SLexError>
    decreases s.len() - i,
{
    if i < 0 || i > s.len() {
        Err(SLexError { pos: i, expected: "token"@ })
    } else {
        match step(s, i, mode) {
            Step::Done => Ok(Seq::empty()),
            Step::Fail(e) => Err(SLexError { pos: i, expected: e }),
            Step::Skip(j) => if i < j <= s.len() {
                lex_from(s, j, mode)
            } else {
                Err(SLexError { pos: i, expected: "token"@ })
            },
            Step::Emit(k, j, m) => if i < j <= s.len() {
                match lex_from(s, j, m) {
                    Ok(rest) => Ok(seq![SToken { kind: k, start: i as usize, end: j as usize }] + rest),
                    Err(e) => Err(e),
                }
            } else {
                Err(SLexError { pos: i, expected: "token"@ })
            },
        }
    }
}

/// The tokens of a source text.
pub open spec fn lex_spec(s: Seq<char>) -> Result<Seq<SToken>, SLexError> {
    lex_from(s, 0, Mode::Code)
}

/// Each name, number and text token holds the characters it covers; a string
/// literal holds those between its quotes.
pub open spec fn tokens_hold_text(s: Seq<char>, t: Seq<SToken>) -> bool {
    forall|k: int|
        0 <= k < t.len() ==> match #[trigger] t[k].kind {
            STokKind::Ident(x) => x == s.subrange(t[k].start as int, t[k].end as int),
            STokKind::Number(x) => x == s.subrange(t[k].start as int, t[k].end as int),
            STokKind::InterpText(x) => x == s.subrange(t[k].start as int, t[k].end as int),
            STokKind::Str(x) => x == s.subrange(t[k].start + 1, t[k].end - 1),
            _ => true,
        }
}

/// How a symbol is written.
pub open spec fn sym_spelling(y: Sym) -> Seq<char> {
    match y {
        Sym::At => seq!['@'],
        Sym::Semi => seq![';'],
        Sym::Colon => seq![':'],
        Sym::Comma => seq![','],
        Sym::LParen => seq!['('],
        Sym::RParen => seq![')'],
        Sym::LBrace => seq!['{'],
        Sym::RBrace => seq!['}'],
        Sym::LBracket => seq!['['],
        Sym::RBracket => seq![']'],
        Sym::Dot => seq!['.'],
        Sym::Pipe => seq!['|'],
        Sym::Arrow => seq!['-', '>'],
        Sym::EqEq => seq!['=', '='],
        Sym::NotEq => seq!['!', '='],
        Sym::Le => seq!['<', '='],
        Sym::Ge => seq!['>', '='],
        Sym::Lt => seq!['<'],
        Sym::Gt => seq!['>'],
        Sym::Assign => seq!['='],
        Sym::PlusPlusAssign => seq!['+', '+', '='],
        Sym::PlusPlus => seq!['+', '+'],
        Sym::PlusAssign => seq!['+', '='],
        Sym::MinusAssign => seq!['-', '='],
        Sym::StarAssign => seq!['*', '='],
        Sym::SlashAssign => seq!['/', '='],
        Sym::Plus => seq!['+'],
        Sym::Minus => seq!['-'],
        Sym::Star => seq!['*'],
        Sym::Slash => seq!['/'],
    }
}

/// Each symbol token covers exactly the characters that spell its symbol.
pub open spec fn symbols_as_written(s: Seq<char>, t: Seq<SToken>) -> bool {
    forall|k: int|
        0 <= k < t.len() ==> match #[trigger] t[k].kind {
            STokKind::Sym(y) => s.subrange(t[k].start as int, t[k].end as int) == sym_spelling(y),
            _ => true,
        }
}

// ---------------------------------------------------------------------------
// Byte offsets
// ---------------------------------------------------------------------------

/// The byte offset of each character index, up to and including the end:
/// the length of the UTF-8 encoding of the characters before it.
pub open spec fn is_offset_table(s: Seq<char>, offs: Seq<usize>) -> bool {
    &&& offs.len() == s.len() + 1
    &&& forall|i: int| 0 <= i <= s.len() ==> #[trigger] offs[i] == encode_utf8(s.take(i)).len()
}

} // verus!

verus! {

/// The characters of a text.
pub fn chars_of(text: &str) -> (r: Vec<char>)
    ensures
        r@ == text@,
{
    let mut v: Vec<char> = Vec::new();
    for c in it: text.chars()
        invariant
            v@ == it.seq().take(it.index()),
    {
        v.push(c);
    }
    v
}

fn space(c: char) -> (r: bool)
    ensures
        r == is_space(c),
{
    c == ' ' || c == '\t' || c == '\n' || c == '\r'
}

fn digit(c: char) -> (r: bool)
    ensures
        r == is_digit(c),
{
    '0' <= c && c <= '9'
}

fn ident_start(c: char) -> (r: bool)
    ensures
        r == is_ident_start(c),
{
    ('a' <= c && c <= 'z') || ('A' <= c && c <= 'Z') || c == '_'
}

fn ident_char(c: char) -> (r: bool)
    ensures
        r == is_ident_char(c),
{
    ident_start(c) || digit(c)
}

fn at(s: &Vec<char>, i: usize) -> (r: char)
    ensures
        r == char_at(s@, i as int),
{
    if i < s.len() {
        s[i]
    } else {
        '\0'
    }
}

fn scan_ident(s: &Vec<char>, i: usize) -> (r: usize)
    requires
        i <= s@.len(),
    ensures
        r == ident_end(s@, i as int),
        i <= r <= s@.len(),
{
    let mut j = i;
    while j < s.len() && ident_char(s[j])
        invariant
            i <= j <= s@.len(),
            ident_end(s@, i as int) == ident_end(s@, j as int),
        decreases s@.len() - j,
    {
        j = j + 1;
    }
    j
}

fn scan_digits(s: &Vec<char>, i: usize) -> (r: usize)
    requires
        i <= s@.len(),
    ensures
        r == digits_end(s@, i as int),
        i <= r <= s@.len(),
{
    let mut j = i;
    while j < s.len() && digit(s[j])
        invariant
            i <= j <= s@.len(),
            digits_end(s@, i as int) == digits_end(s@, j as int),
        decreases s@.len() - j,
    {
        j = j + 1;
    }
    j
}

fn scan_to(s: &Vec<char>, i: usize, c: char) -> (r: usize)
    requires
        i <= s@.len(),
    ensures
        r == find_char(s@, i as int, c),
        i <= r <= s@.len(),
{
    let mut j = i;
    while j < s.len() && s[j] != c
        invariant
            i <= j <= s@.len(),
            find_char(s@, i as int, c) == find_char(s@, j as int, c),
        decreases s@.len() - j,
    {
        j = j + 1;
    }
    j
}

fn scan_text(s: &Vec<char>, i: usize) -> (r: usize)
    requires
        i <= s@.len(),
    ensures
        r == text_end(s@, i as int),
        i <= r <= s@.len(),
{
    let mut j = i;
    while j < s.len() && s[j] != '"' && s[j] != '{'
        invariant
            i <= j <= s@.len(),
            text_end(s@, i as int) == text_end(s@, j as int),
        decreases s@.len() - j,
    {
        j = j + 1;
    }
    j
}

proof fn lemma_comment_end(s: Seq<char>, i: int)
    ensures
        comment_end(s, i) matches Some(k) ==> i + 2 <= k <= s.len(),
    decreases s.len() - i,
{
    if !(i < 0 || i + 1 >= s.len()) && !(s[i] == '*' && s[i + 1] == '/') {
        lemma_comment_end(s, i + 1);
    }
}

fn scan_comment(s: &Vec<char>, i: usize) -> (r: Option<usize>)
    requires
        i <= s@.len(),
    ensures
        match r {
            Some(j) => comment_end(s@, i as int) == Some(j as int),
            None => comment_end(s@, i as int) is None,
        },
        r matches Some(k) ==> i < k <= s@.len(),
{
    proof {
        lemma_comment_end(s@, i as int);
    }
    let mut j = i;
    while j < s.len() && s.len() - j > 1
        invariant
            i <= j <= s@.len(),
            comment_end(s@, i as int) == comment_end(s@, j as int),
        decreases s@.len() - j,
    {
        if s[j] == '*' && s[j + 1] == '/' {
            return Some(j + 2);
        }
        j = j + 1;
    }
    None
}

/// A slice of characters as a string.
pub(crate) fn text_of(s: &Vec<char>, i: usize, j: usize) -> (r: String)
    requires
        i <= j <= s@.len(),
    ensures
        r@ == s@.subrange(i as int, j as int),
{
    let mut r = String::new();
    let mut k = i;
    while k < j
        invariant
            i <= k <= j <= s@.len(),
            r@ == s@.subrange(i as int, k as int),
        decreases j - k,
    {
        push_char(&mut r, s[k]);
        assert(r@ =~= s@.subrange(i as int, k + 1));
        k = k + 1;
    }
    r
}

/// Appends a character to a string by `String::push`, which std documents as
/// appending the given `char` to the end of the string. Trusted, not proved:
/// the string afterwards holds its former characters followed by `c`.
#[verifier::external_body]
pub(crate) fn push_char(r: &mut String, c: char)
    ensures
        final(r)@ == old(r)@.push(c),
{
    r.push(c);
}

/// One step of the lexer, as computed.
enum EStep {
    Skip(usize),
    Emit(TokKind, usize, Mode),
    Done,
    Fail(String),
}

spec fn view_step(e: EStep) -> Step {
    match e {
        EStep::Skip(j) => Step::Skip(j as int),
        EStep::Emit(k, j, m) => Step::Emit(k@, j as int, m),
        EStep::Done => Step::Done,
        EStep::Fail(x) => Step::Fail(x@),
    }
}

fn at_off(s: &Vec<char>, i: usize, k: usize) -> (r: char)
    requires
        i <= s@.len(),
    ensures
        r == char_at(s@, i + k),
{
    if k < s.len() - i {
        s[i + k]
    } else {
        '\0'
    }
}

fn symbol(s: &Vec<char>, i: usize) -> (r: Option<(Sym, usize)>)
    requires
        i < s@.len(),
    ensures
        r == (match symbol_at(s@, i as int) {
            Some((y, n)) => Some((y, n as usize)),
            None => None,
        }),
{
    let c = at_off(s, i, 0);
    let d = at_off(s, i, 1);
    let e = at_off(s, i, 2);
    if c == '+' && d == '+' && e == '=' {
        Some((Sym::PlusPlusAssign, 3))
    } else if c == '+' && d == '+' {
        Some((Sym::PlusPlus, 2))
    } else if c == '+' && d == '=' {
        Some((Sym::PlusAssign, 2))
    } else if c == '-' && d == '=' {
        Some((Sym::MinusAssign, 2))
    } else if c == '-' && d == '>' {
        Some((Sym::Arrow, 2))
    } else if c == '*' && d == '=' {
        Some((Sym::StarAssign, 2))
    } else if c == '/' && d == '=' {
        Some((Sym::SlashAssign, 2))
    } else if c == '=' && d == '=' {
        Some((Sym::EqEq, 2))
    } else if c == '!' && d == '=' {
        Some((Sym::NotEq, 2))
    } else if c == '<' && d == '=' {
        Some((Sym::Le, 2))
    } else if c == '>' && d == '=' {
        Some((Sym::Ge, 2))
    } else if c == '+' {
        Some((Sym::Plus, 1))
    } else if c == '-' {
        Some((Sym::Minus, 1))
    } else if c == '*' {
        Some((Sym::Star, 1))
    } else if c == '/' {
        Some((Sym::Slash, 1))
    } else if c == '=' {
        Some((Sym::Assign, 1))
    } else if c == '<' {
        Some((Sym::Lt, 1))
    } else if c == '>' {
        Some((Sym::Gt, 1))
    } else if c == '@' {
        Some((Sym::At, 1))
    } else if c == ';' {
        Some((Sym::Semi, 1))
    } else if c == ':' {
        Some((Sym::Colon, 1))
    } else if c == ',' {
        Some((Sym::Comma, 1))
    } else if c == '(' {
        Some((Sym::LParen, 1))
    } else if c == ')' {
        Some((Sym::RParen, 1))
    } else if c == '{' {
        Some((Sym::LBrace, 1))
    } else if c == '}' {
        Some((Sym::RBrace, 1))
    } else if c == '[' {
        Some((Sym::LBracket, 1))
    } else if c == ']' {
        Some((Sym::RBracket, 1))
    } else if c == '.' {
        Some((Sym::Dot, 1))
    } else if c == '|' {
        Some((Sym::Pipe, 1))
    } else {
        None
    }
}

/// The step of the lexer in the text of an interpolated string.
fn step_text(s: &Vec<char>, i: usize) -> (r: EStep)
    requires
        i <= s@.len(),
    ensures
        view_step(r) == step(s@, i as int, Mode::Text),
        r matches EStep::Skip(j) ==> i < j <= s@.len(),
        r matches EStep::Emit(_, j, _) ==> i < j <= s@.len(),
{
    if i >= s.len() {
        EStep::Fail(text("closing quote"))
    } else if s[i] == '"' {
        EStep::Emit(TokKind::InterpEnd, i + 1, Mode::Code)
    } else if s[i] == '{' {
        EStep::Emit(TokKind::InterpOpen, i + 1, Mode::Embedded)
    } else {
        let j = scan_text(s, i + 1);
        assert(text_end(s@, i as int) == text_end(s@, i + 1));
        EStep::Emit(TokKind::InterpText(text_of(s, i, j)), j, Mode::Text)
    }
}

/// The step of the lexer on a name, a number or a string literal at `i`.
fn step_word(s: &Vec<char>, i: usize, mode: Mode) -> (r: EStep)
    requires
        i < s@.len(),
        mode != Mode::Text,
        !is_space(s@[i as int]),
        !(s@[i as int] == '/' && char_at(s@, i + 1) == '/'),
        !(s@[i as int] == '/' && char_at(s@, i + 1) == '*'),
        !(mode == Mode::Embedded && s@[i as int] == '}'),
    ensures
        view_step(r) == step(s@, i as int, mode),
        r matches EStep::Skip(j) ==> i < j <= s@.len(),
        r matches EStep::Emit(_, j, _) ==> i < j <= s@.len(),
{
    let n = s.len();
    let c = s[i];
    if ident_start(c) {
        let j = scan_ident(s, i + 1);
        assert(ident_end(s@, i as int) == ident_end(s@, i + 1));
        EStep::Emit(TokKind::Ident(text_of(s, i, j)), j, mode)
    } else if digit(c) {
        let j = scan_digits(s, i + 1);
        assert(digits_end(s@, i as int) == digits_end(s@, i + 1));
        if at_off(s, j, 0) == '.' && digit(at_off(s, j, 1)) {
            assert(j + 2 <= n);
            let k = scan_digits(s, j + 2);
            assert(digits_end(s@, j + 1) == digits_end(s@, j + 2));
            EStep::Emit(TokKind::Number(text_of(s, i, k)), k, mode)
        } else {
            EStep::Emit(TokKind::Number(text_of(s, i, j)), j, mode)
        }
    } else if c == '"' {
        let j = scan_to(s, i + 1, '"');
        if j < s.len() {
            EStep::Emit(TokKind::Str(text_of(s, i + 1, j)), j + 1, mode)
        } else {
            EStep::Fail(text("closing quote"))
        }
    } else if c == '$' && at_off(s, i, 1) == '"' && mode == Mode::Code {
        EStep::Emit(TokKind::InterpStart, i + 2, Mode::Text)
    } else {
        match symbol(s, i) {
            Some((y, n)) => EStep::Emit(TokKind::Sym(y), i + n, mode),
            None => EStep::Fail(text("token")),
        }
    }
}

/// The step of the lexer at `i` in `mode`.
fn step_exec(s: &Vec<char>, i: usize, mode: Mode) -> (r: EStep)
    requires
        i <= s@.len(),
    ensures
        view_step(r) == step(s@, i as int, mode),
        r matches EStep::Skip(j) ==> i < j <= s@.len(),
        r matches EStep::Emit(_, j, _) ==> i < j <= s@.len(),
{
    if mode == Mode::Text {
        step_text(s, i)
    } else if i >= s.len() {
        if mode == Mode::Code {
            EStep::Done
        } else {
            EStep::Fail(text("closing brace"))
        }
    } else {
        let c = s[i];
        if space(c) {
            EStep::Skip(i + 1)
        } else if c == '/' && at_off(s, i, 1) == '/' {
            let j = scan_to(s, i + 1, '\n');
            assert(find_char(s@, i as int, '\n') == find_char(s@, i + 1, '\n'));
            EStep::Skip(j)
        } else if c == '/' && at_off(s, i, 1) == '*' {
            match scan_comment(s, i + 2) {
                Some(j) => EStep::Skip(j),
                None => EStep::Fail(text("end of comment")),
            }
        } else if mode == Mode::Embedded && c == '}' {
            EStep::Emit(TokKind::InterpClose, i + 1, Mode::Text)
        } else {
            step_word(s, i, mode)
        }
    }
}

spec fn prepend(a: Seq<SToken>, r: Result<Seq<SToken>, SLexError>) -> Result<Seq<SToken>, SLexError> {
    match r {
        Ok(x) => Ok(a + x),
        Err(e) => Err(e),
    }
}

/// Splits a text into tokens.
pub fn lex(s: &Vec<char>) -> (r: Result<Vec<Token>, LexError>)
    ensures
        match r {
            Ok(v) => lex_spec(s@) == Ok::<Seq<SToken>, SLexError>(view_tokens(v@)),
            Err(e) => lex_spec(s@) == Err::<Seq<SToken>, SLexError>(e@) && e.pos <= s@.len(),
        },
{
    let mut v: Vec<Token> = Vec::new();
    let mut i: usize = 0;
    let mut mode = Mode::Code;
    assert(view_tokens(v@) + Seq::<SToken>::empty() =~= Seq::<SToken>::empty());
    assert(prepend(view_tokens(v@), lex_from(s@, 0, Mode::Code)) == lex_from(s@, 0, Mode::Code)) by {
        match lex_from(s@, 0, Mode::Code) {
            Ok(x) => assert(view_tokens(v@) + x =~= x),
            Err(_) => {},
        }
    }
    loop
        invariant
            i <= s@.len(),
            lex_spec(s@) == prepend(view_tokens(v@), lex_from(s@, i as int, mode)),
        decreases s@.len() - i,
    {
        let st = step_exec(s, i, mode);
        match st {
            EStep::Done => {
                assert(view_tokens(v@) + Seq::<SToken>::empty() =~= view_tokens(v@));
                return Ok(v);
            },
            EStep::Fail(e) => {
                return Err(LexError { pos: i, expected: e });
            },
            EStep::Skip(j) => {
                i = j;
            },
            EStep::Emit(k, j, m) => {
                let ghost old_v = view_tokens(v@);
                let tok = Token { kind: k, start: i, end: j };
                let ghost tv = tok@;
                v.push(tok);
                assert(view_tokens(v@) =~= old_v.push(tv));
                proof {
                    match lex_from(s@, j as int, m) {
                        Ok(rest) => {
                            assert(old_v + (seq![tv] + rest) =~= old_v.push(tv) + rest);
                        },
                        Err(_) => {},
                    }
                }
                i = j;
                mode = m;
            },
        }
    }
}

/// Tokens that start at or after `lo`, end by `n`, are not empty and do not overlap.
pub open spec fn tokens_ordered(t: Seq<SToken>, lo: int, n: int) -> bool {
    &&& forall|k: int| 0 <= k < t.len() ==> lo <= #[trigger] t[k].start < t[k].end <= n
    &&& forall|k: int, j: int| 0 <= k < j < t.len() ==> #[trigger] t[k].end <= #[trigger] t[j].start
}

/// The tokens read from `i` on lie in order between `i` and the end of the text.
pub proof fn lemma_lex_from_ordered(s: Seq<char>, i: int, mode: Mode)
    requires
        s.len() <= usize::MAX,
    ensures
        lex_from(s, i, mode) matches Ok(t) ==> tokens_ordered(t, i, s.len() as int),
    decreases s.len() - i,
{
    if 0 <= i <= s.len() {
        match step(s, i, mode) {
            Step::Skip(j) => if i < j <= s.len() {
                lemma_lex_from_ordered(s, j, mode);
                assert(lex_from(s, i, mode) == lex_from(s, j, mode));
            },
            Step::Emit(k, j, m) => if i < j <= s.len() {
                lemma_lex_from_ordered(s, j, m);
                match lex_from(s, j, m) {
                    Ok(rest) => {
                        let tok = SToken { kind: k, start: i as usize, end: j as usize };
                        let t = seq![tok] + rest;
                        assert(lex_from(s, i, mode) == Ok::<Seq<SToken>, SLexError>(t));
                        assert(t[0] == tok);
                        assert forall|a: int| 1 <= a < t.len() implies t[a] == rest[a - 1] by {}
                        assert forall|a: int| 0 <= a < t.len() implies i <= #[trigger] t[a].start < t[a].end <= s.len() by {
                            if a > 0 {
                                assert(t[a] == rest[a - 1]);
                            }
                        }
                        assert forall|a: int, b: int| 0 <= a < b < t.len() implies #[trigger] t[a].end <= #[trigger] t[b].start by {
                            assert(t[b] == rest[b - 1]);
                            if a > 0 {
                                assert(t[a] == rest[a - 1]);
                                assert(rest[a - 1].end <= rest[b - 1].start);
                            } else {
                                assert(j <= rest[b - 1].start);
                            }
                        }
                    },
                    Err(_) => {},
                }
            },
            _ => {},
        }
    }
}

/// The encoding of two texts one after the other is the two encodings one after the other.
pub proof fn lemma_encode_concat(a: Seq<char>, b: Seq<char>)
    ensures
        encode_utf8(a + b) == encode_utf8(a) + encode_utf8(b),
    decreases a.len(),
{
    if a.len() == 0 {
        assert(a + b =~= b);
        assert(encode_utf8(a) + encode_utf8(b) =~= encode_utf8(b));
    } else {
        lemma_encode_concat(a.drop_first(), b);
        assert((a + b).drop_first() =~= a.drop_first() + b);
        assert((a + b)[0] == a[0]);
        assert(encode_utf8(a + b) =~= encode_scalar(a[0] as u32) + encode_utf8(a.drop_first() + b));
    }
}

/// A text that is not empty takes at least one byte.
pub proof fn lemma_encode_nonempty(x: Seq<char>)
    requires
        x.len() > 0,
    ensures
        encode_utf8(x).len() > 0,
{
    assert(encode_utf8(x) == encode_scalar(x[0] as u32) + encode_utf8(x.drop_first()));
}

proof fn lemma_encode_prefix(s: Seq<char>, i: int)
    requires
        0 <= i < s.len(),
    ensures
        encode_utf8(s.take(i + 1)).len() == encode_utf8(s.take(i)).len() + encode_scalar(s[i] as u32).len(),
        encode_utf8(s.take(i + 1)).len() <= encode_utf8(s).len(),
{
    lemma_encode_concat(s.take(i), seq![s[i]]);
    assert(s.take(i + 1) =~= s.take(i) + seq![s[i]]);
    assert(seq![s[i]].drop_first() =~= Seq::<char>::empty());
    assert(encode_utf8(seq![s[i]]) =~= encode_scalar(s[i] as u32) + encode_utf8(Seq::<char>::empty()));
    lemma_encode_concat(s.take(i + 1), s.skip(i + 1));
    assert(s.take(i + 1) + s.skip(i + 1) =~= s);
}

/// How many bytes UTF-8 takes for a character.
fn utf8_width(c: char) -> (r: usize)
    ensures
        r == encode_scalar(c as u32).len(),
{
    proof {
        char_is_scalar(c);
    }
    let u = c as u32;
    if u <= 0x7F {
        1
    } else if u <= 0x7FF {
        2
    } else if u <= 0xFFFF {
        3
    } else {
        4
    }
}

/// The byte offset of each character index of a text whose encoding takes `nbytes` bytes.
pub fn offsets(s: &Vec<char>, nbytes: usize) -> (r: Vec<usize>)
    requires
        encode_utf8(s@).len() == nbytes,
    ensures
        is_offset_table(s@, r@),
{
    let mut r: Vec<usize> = Vec::new();
    r.push(0);
    assert(encode_utf8(s@.take(0)).len() == 0) by {
        assert(s@.take(0) =~= Seq::<char>::empty());
    }
    let mut i: usize = 0;
    let mut b: usize = 0;
    while i < s.len()
        invariant
            i <= s@.len(),
            r@.len() == i + 1,
            b == encode_utf8(s@.take(i as int)).len(),
            b <= nbytes,
            nbytes == encode_utf8(s@).len(),
            forall|k: int| 0 <= k <= i ==> #[trigger] r@[k] == encode_utf8(s@.take(k)).len(),
        decreases s@.len() - i,
    {
        proof {
            lemma_encode_prefix(s@, i as int);
        }
        b = b + utf8_width(s[i]);
        r.push(b);
        i = i + 1;
    }
    assert(s@.take(s@.len() as int) =~= s@);
    r
}

/// The name, number and text tokens read from `i` on hold the characters they cover.
pub proof fn law_tokens_hold_text(s: Seq<char>, i: int, mode: Mode)
    requires
        s.len() <= usize::MAX,
    ensures
        lex_from(s, i, mode) matches Ok(t) ==> tokens_hold_text(s, t),
    decreases s.len() - i,
{
    if 0 <= i <= s.len() {
        match step(s, i, mode) {
            Step::Skip(j) => if i < j <= s.len() {
                law_tokens_hold_text(s, j, mode);
            },
            Step::Emit(k, j, m) => if i < j <= s.len() {
                law_tokens_hold_text(s, j, m);
                match lex_from(s, j, m) {
                    Ok(rest) => {
                        let tok = SToken { kind: k, start: i as usize, end: j as usize };
                        let t = seq![tok] + rest;
                        assert(t[0] == tok);
                        assert forall|a: int| 0 <= a < t.len() implies match #[trigger] t[a].kind {
                            STokKind::Ident(x) => x == s.subrange(t[a].start as int, t[a].end as int),
                            STokKind::Number(x) => x == s.subrange(t[a].start as int, t[a].end as int),
                            STokKind::InterpText(x) => x == s.subrange(t[a].start as int, t[a].end as int),
                            STokKind::Str(x) => x == s.subrange(t[a].start + 1, t[a].end - 1),
                            _ => true,
                        } by {
                            if a > 0 {
                                assert(t[a] == rest[a - 1]);
                            }
                        }
                    },
                    Err(_) => {},
                }
            },
            _ => {},
        }
    }
}

/// The symbol read at `i` is spelled by the characters it covers.
proof fn lemma_symbol_spelled(s: Seq<char>, i: int)
    requires
        0 <= i,
    ensures
        symbol_at(s, i) matches Some((y, n)) ==> i + n <= s.len() && s.subrange(i, i + n) == sym_spelling(y),
{
    match symbol_at(s, i) {
        Some((y, n)) => {
            let c = char_at(s, i);
            let d = char_at(s, i + 1);
            let e = char_at(s, i + 2);
            assert(c != '\0');
            assert(i < s.len());
            if n >= 2 {
                assert(d != '\0');
                assert(i + 1 < s.len());
            }
            if n >= 3 {
                assert(e != '\0');
                assert(i + 2 < s.len());
            }
            assert(s.subrange(i, i + n) =~= sym_spelling(y));
        },
        None => {},
    }
}

/// The symbol tokens read from `i` on cover exactly the characters that spell
/// their symbols: `!=` is read as `NotEq`, `<=` as `Le`, and so on.
pub proof fn law_symbols_as_written(s: Seq<char>, i: int, mode: Mode)
    requires
        s.len() <= usize::MAX,
    ensures
        lex_from(s, i, mode) matches Ok(t) ==> symbols_as_written(s, t),
    decreases s.len() - i,
{
    if 0 <= i <= s.len() {
        match step(s, i, mode) {
            Step::Skip(j) => if i < j <= s.len() {
                law_symbols_as_written(s, j, mode);
            },
            Step::Emit(k, j, m) => if i < j <= s.len() {
                law_symbols_as_written(s, j, m);
                lemma_symbol_spelled(s, i);
                match lex_from(s, j, m) {
                    Ok(rest) => {
                        let tok = SToken { kind: k, start: i as usize, end: j as usize };
                        let t = seq![tok] + rest;
                        assert(t[0] == tok);
                        assert forall|a: int| 0 <= a < t.len() implies match #[trigger] t[a].kind {
                            STokKind::Sym(y) => s.subrange(t[a].start as int, t[a].end as int) == sym_spelling(y),
                            _ => true,
                        } by {
                            if a > 0 {
                                assert(t[a] == rest[a - 1]);
                            }
                        }
                    },
                    Err(_) => {},
                }
            },
            _ => {},
        }
    }
}

} // verus!
