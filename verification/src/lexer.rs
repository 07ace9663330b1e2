//! The tokenizer: source text to a flat token stream with explicit
//! `Newline`, `Indent` and `Dedent` tokens.
use vstd::prelude::*;
use crate::text::{is_ascii_ws, is_ascii_alpha, is_ascii_digit, is_ident_char, dec, digits_value, digit_value, push_char, push_dec, string_of, chars_of, chars_eq, ascii_ws, ascii_alpha, ascii_digit, ident_char};

verus! {

/// The kind of a token, with its payload.
#[derive(Debug, PartialEq)]
pub enum TokenKind {
    Eof,
    Newline,
    Indent,
    Dedent,
    Name(String),
    Int(i64),
    /// A float literal, kept as its source text (digits, a dot, digits).
    Float(String),
    String(String),
    FString(String),
    Def,
    Class,
    If,
    Elif,
    Else,
    While,
    For,
    In,
    Return,
    Break,
    Continue,
    Pass,
    Try,
    Except,
    Raise,
    As,
    And,
    Or,
    Not,
    NoneVal,
    TrueVal,
    FalseVal,
    Lambda,
    Import,
    From,
    Lparen,
    Rparen,
    Lbracket,
    Rbracket,
    Lbrace,
    Rbrace,
    Comma,
    Colon,
    Dot,
    Plus,
    Minus,
    Star,
    Slash,
    Percent,
    Equal,
    PlusEq,
    MinusEq,
    Eqeq,
    Ne,
    Lt,
    Le,
    Gt,
    Ge,
    Rarrow,
    /// `@`, starting a decorator.
    At,
    Yield,
}

/// The mathematical form of a token kind: payloads as sequences and integers.
pub enum Kind {
    Eof,
    Newline,
    Indent,
    Dedent,
    Name(Seq<char>),
    Int(int),
    Float(Seq<char>),
    Str(Seq<char>),
    FString(Seq<char>),
    Def,
    Class,
    If,
    Elif,
    Else,
    While,
    For,
    In,
    Return,
    Break,
    Continue,
    Pass,
    Try,
    Except,
    Raise,
    As,
    And,
    Or,
    Not,
    NoneVal,
    TrueVal,
    FalseVal,
    Lambda,
    Import,
    From,
    Lparen,
    Rparen,
    Lbracket,
    Rbracket,
    Lbrace,
    Rbrace,
    Comma,
    Colon,
    Dot,
    Plus,
    Minus,
    Star,
    Slash,
    Percent,
    Equal,
    PlusEq,
    MinusEq,
    Eqeq,
    Ne,
    Lt,
    Le,
    Gt,
    Ge,
    Rarrow,
    /// `@`, starting a decorator.
    At,
    Yield,
}

impl View for TokenKind {
    type V = Kind;

    open spec fn view(&self) -> Kind {
        match self {
            TokenKind::Eof => Kind::Eof,
            TokenKind::Newline => Kind::Newline,
            TokenKind::Indent => Kind::Indent,
            TokenKind::Dedent => Kind::Dedent,
            TokenKind::Name(s) => Kind::Name(s@),
            TokenKind::Int(i) => Kind::Int(*i as int),
            TokenKind::Float(s) => Kind::Float(s@),
            TokenKind::String(s) => Kind::Str(s@),
            TokenKind::FString(s) => Kind::FString(s@),
            TokenKind::Def => Kind::Def,
            TokenKind::Class => Kind::Class,
            TokenKind::If => Kind::If,
            TokenKind::Elif => Kind::Elif,
            TokenKind::Else => Kind::Else,
            TokenKind::While => Kind::While,
            TokenKind::For => Kind::For,
            TokenKind::In => Kind::In,
            TokenKind::Return => Kind::Return,
            TokenKind::Break => Kind::Break,
            TokenKind::Continue => Kind::Continue,
            TokenKind::Pass => Kind::Pass,
            TokenKind::Try => Kind::Try,
            TokenKind::Except => Kind::Except,
            TokenKind::Raise => Kind::Raise,
            TokenKind::As => Kind::As,
            TokenKind::And => Kind::And,
            TokenKind::Or => Kind::Or,
            TokenKind::Not => Kind::Not,
            TokenKind::NoneVal => Kind::NoneVal,
            TokenKind::TrueVal => Kind::TrueVal,
            TokenKind::FalseVal => Kind::FalseVal,
            TokenKind::Lambda => Kind::Lambda,
            TokenKind::Import => Kind::Import,
            TokenKind::From => Kind::From,
            TokenKind::Lparen => Kind::Lparen,
            TokenKind::Rparen => Kind::Rparen,
            TokenKind::Lbracket => Kind::Lbracket,
            TokenKind::Rbracket => Kind::Rbracket,
            TokenKind::Lbrace => Kind::Lbrace,
            TokenKind::Rbrace => Kind::Rbrace,
            TokenKind::Comma => Kind::Comma,
            TokenKind::Colon => Kind::Colon,
            TokenKind::Dot => Kind::Dot,
            TokenKind::Plus => Kind::Plus,
            TokenKind::Minus => Kind::Minus,
            TokenKind::Star => Kind::Star,
            TokenKind::Slash => Kind::Slash,
            TokenKind::Percent => Kind::Percent,
            TokenKind::Equal => Kind::Equal,
            TokenKind::PlusEq => Kind::PlusEq,
            TokenKind::MinusEq => Kind::MinusEq,
            TokenKind::Eqeq => Kind::Eqeq,
            TokenKind::Ne => Kind::Ne,
            TokenKind::Lt => Kind::Lt,
            TokenKind::Le => Kind::Le,
            TokenKind::Gt => Kind::Gt,
            TokenKind::Ge => Kind::Ge,
            TokenKind::Rarrow => Kind::Rarrow,
            TokenKind::At => Kind::At,
            TokenKind::Yield => Kind::Yield,
        }
    }
}

/// A token with its 1-based line and column.
#[derive(Debug)]
pub struct Token {
    pub kind: TokenKind,
    pub line: usize,
    pub col: usize,
}

/// The mathematical form of a token.
pub struct Tok {
    pub kind: Kind,
    pub line: int,
    pub col: int,
}

impl View for Token {
    type V = Tok;

    open spec fn view(&self) -> Tok {
        Tok { kind: self.kind@, line: self.line as int, col: self.col as int }
    }
}

/// The tokens of a vector, each by its view.
pub open spec fn toks_view(v: Seq<Token>) -> Seq<Tok> {
    v.map_values(|t: Token| t@)
}

// ----------------------------------------------------------------------
// Lines
// ----------------------------------------------------------------------

/// Drops one trailing carriage return.
pub open spec fn strip_cr(s: Seq<char>) -> Seq<char> {
    if s.len() > 0 && s.last() == '\r' {
        s.drop_last()
    } else {
        s
    }
}

/// Reading `s` from the left: the lines completed so far and the partial
/// line after the last line feed.
pub open spec fn line_split(s: Seq<char>) -> (Seq<Seq<char>>, Seq<char>)
    decreases s.len(),
{
    if s.len() == 0 {
        (Seq::empty(), Seq::empty())
    } else {
        let (done, cur) = line_split(s.drop_last());
        if s.last() == '\n' {
            (done.push(strip_cr(cur)), Seq::empty())
        } else {
            (done, cur.push(s.last()))
        }
    }
}

/// The lines of `s` as `str::lines` yields them: split at `\n` or `\r\n`,
/// with no empty line after a final line feed.
pub open spec fn lines(s: Seq<char>) -> Seq<Seq<char>> {
    let (done, cur) = line_split(s);
    if cur.len() == 0 {
        done
    } else {
        done.push(cur)
    }
}

// ----------------------------------------------------------------------
// Lexer state
// ----------------------------------------------------------------------

/// The state the tokenizer carries from line to line.
pub struct LexState {
    pub toks: Seq<Tok>,
    pub indents: Seq<int>,
    pub line: int,
    pub paren: int,
    /// The quote character of an open triple-quoted string.
    pub tq: Option<char>,
    pub tq_line: int,
    pub tq_text: Seq<char>,
    /// Whether an integer literal too large for `i64` has been read.
    pub big: bool,
}

pub open spec fn init_state() -> LexState {
    LexState {
        toks: Seq::empty(),
        indents: seq![0int],
        line: 1,
        paren: 0,
        tq: None,
        tq_line: 0,
        tq_text: Seq::empty(),
        big: false,
    }
}

pub open spec fn push_tok(st: LexState, kind: Kind, line: int, col: int) -> LexState {
    LexState {
        toks: st.toks.push(Tok { kind, line, col }),
        big: st.big || (kind matches Kind::Int(v) && v > i64::MAX),
        ..st
    }
}

pub open spec fn next_line(st: LexState) -> LexState {
    LexState { line: st.line + 1, ..st }
}

/// A tokenizing error together with the state reached when it was found.
pub struct LexErr {
    pub st: LexState,
    pub msg: Seq<char>,
}

pub open spec fn lex_err(st: LexState, msg: Seq<char>) -> Result<LexState, LexErr> {
    Err(LexErr { st, msg })
}

/// The state a result ends in, whether it succeeded or failed.
pub open spec fn end_state(r: Result<LexState, LexErr>) -> LexState {
    match r {
        Ok(st) => st,
        Err(e) => e.st,
    }
}

// ----------------------------------------------------------------------
// Scanning within a line
// ----------------------------------------------------------------------

/// Continues a triple-quoted string on a later line: where the scan stops,
/// whether the closing quotes were found, and the text gathered.
pub open spec fn tq_scan(cs: Seq<char>, q: char, i: int, escaped: bool, text: Seq<char>) -> (int, bool, Seq<char>)
    decreases cs.len() - i,
{
    if i < 0 || i >= cs.len() {
        (i, false, text)
    } else if !escaped && cs[i] == q && cs.len() - i > 2 && cs[i + 1] == q && cs[i + 2] == q {
        (i + 3, true, text)
    } else {
        tq_scan(cs, q, i + 1, !escaped && cs[i] == '\\' && i + 1 < cs.len(), text.push(cs[i]))
    }
}

/// Scans the rest of the line a triple-quoted string opens on.
pub open spec fn tq_open_scan(cs: Seq<char>, q: char, i: int, text: Seq<char>) -> (int, bool, Seq<char>)
    decreases cs.len() - i,
{
    if i < 0 || i >= cs.len() {
        (i, false, text)
    } else if text.len() > 0 && cs[i] == q && cs.len() - i > 2 && cs[i + 1] == q && cs[i + 2] == q {
        (i + 3, true, text)
    } else {
        tq_open_scan(cs, q, i + 1, text.push(cs[i]))
    }
}

/// The character an escape sequence `\c` stands for.
pub open spec fn unescape(c: char) -> char {
    if c == 'n' {
        '\n'
    } else if c == 't' {
        '\t'
    } else {
        c
    }
}

/// Scans the body of a one-line string up to its closing quote `q`; stops at
/// the quote (or at the end of the line when there is none).
pub open spec fn str_scan(cs: Seq<char>, q: char, i: int, val: Seq<char>) -> (int, Seq<char>)
    decreases cs.len() - i,
{
    if i < 0 || i >= cs.len() || cs[i] == q {
        (i, val)
    } else if cs[i] == '\\' {
        if i + 1 >= cs.len() {
            (i + 1, val)
        } else {
            str_scan(cs, q, i + 2, val.push(unescape(cs[i + 1])))
        }
    } else {
        str_scan(cs, q, i + 1, val.push(cs[i]))
    }
}

/// The end of a run of identifier characters starting at `i`.
pub open spec fn ident_end(cs: Seq<char>, i: int) -> int
    decreases cs.len() - i,
{
    if 0 <= i < cs.len() && is_ident_char(cs[i]) {
        ident_end(cs, i + 1)
    } else {
        i
    }
}

/// The end of a run of decimal digits starting at `i`.
pub open spec fn digits_end(cs: Seq<char>, i: int) -> int
    decreases cs.len() - i,
{
    if 0 <= i < cs.len() && is_ascii_digit(cs[i]) {
        digits_end(cs, i + 1)
    } else {
        i
    }
}

/// The end of the leading spaces and tabs.
pub open spec fn blank_end(cs: Seq<char>, i: int) -> int
    decreases cs.len() - i,
{
    if 0 <= i < cs.len() && (cs[i] == ' ' || cs[i] == '\t') {
        blank_end(cs, i + 1)
    } else {
        i
    }
}

/// The indentation width of `cs[i..j]`: four per tab, one per space.
pub open spec fn indent_width(cs: Seq<char>, i: int, j: int) -> int
    decreases j - i,
{
    if i >= j {
        0
    } else {
        indent_width(cs, i, j - 1) + if cs[j - 1] == '\t' { 4int } else { 1int }
    }
}

/// The token a word stands for: a keyword, or a name.
pub open spec fn keyword(w: Seq<char>) -> Kind {
    if w == seq!['d', 'e', 'f'] { Kind::Def }
    else if w == seq!['c', 'l', 'a', 's', 's'] { Kind::Class }
    else if w == seq!['i', 'f'] { Kind::If }
    else if w == seq!['e', 'l', 'i', 'f'] { Kind::Elif }
    else if w == seq!['e', 'l', 's', 'e'] { Kind::Else }
    else if w == seq!['w', 'h', 'i', 'l', 'e'] { Kind::While }
    else if w == seq!['f', 'o', 'r'] { Kind::For }
    else if w == seq!['i', 'n'] { Kind::In }
    else if w == seq!['r', 'e', 't', 'u', 'r', 'n'] { Kind::Return }
    else if w == seq!['b', 'r', 'e', 'a', 'k'] { Kind::Break }
    else if w == seq!['c', 'o', 'n', 't', 'i', 'n', 'u', 'e'] { Kind::Continue }
    else if w == seq!['p', 'a', 's', 's'] { Kind::Pass }
    else if w == seq!['t', 'r', 'y'] { Kind::Try }
    else if w == seq!['e', 'x', 'c', 'e', 'p', 't'] { Kind::Except }
    else if w == seq!['r', 'a', 'i', 's', 'e'] { Kind::Raise }
    else if w == seq!['a', 's'] { Kind::As }
    else if w == seq!['a', 'n', 'd'] { Kind::And }
    else if w == seq!['o', 'r'] { Kind::Or }
    else if w == seq!['n', 'o', 't'] { Kind::Not }
    else if w == seq!['N', 'o', 'n', 'e'] { Kind::NoneVal }
    else if w == seq!['T', 'r', 'u', 'e'] { Kind::TrueVal }
    else if w == seq!['F', 'a', 'l', 's', 'e'] { Kind::FalseVal }
    else if w == seq!['l', 'a', 'm', 'b', 'd', 'a'] { Kind::Lambda }
    else if w == seq!['i', 'm', 'p', 'o', 'r', 't'] { Kind::Import }
    else if w == seq!['f', 'r', 'o', 'm'] { Kind::From }
    else if w == seq!['y', 'i', 'e', 'l', 'd'] { Kind::Yield }
    else { Kind::Name(w) }
}

/// The two-character operator starting at `i`, if any.
pub open spec fn two_char_op(a: char, b: char) -> Option<Kind> {
    if a == '=' && b == '=' { Some(Kind::Eqeq) }
    else if a == '!' && b == '=' { Some(Kind::Ne) }
    else if a == '<' && b == '=' { Some(Kind::Le) }
    else if a == '>' && b == '=' { Some(Kind::Ge) }
    else if a == '+' && b == '=' { Some(Kind::PlusEq) }
    else if a == '-' && b == '=' { Some(Kind::MinusEq) }
    else if a == '-' && b == '>' { Some(Kind::Rarrow) }
    else { None }
}

/// A one-character operator or delimiter, with its effect on the bracket depth.
pub open spec fn one_char_op(c: char) -> Option<(Kind, int)> {
    if c == '(' { Some((Kind::Lparen, 1int)) }
    else if c == ')' { Some((Kind::Rparen, -1int)) }
    else if c == '[' { Some((Kind::Lbracket, 1int)) }
    else if c == ']' { Some((Kind::Rbracket, -1int)) }
    else if c == '{' { Some((Kind::Lbrace, 1int)) }
    else if c == '}' { Some((Kind::Rbrace, -1int)) }
    else if c == ',' { Some((Kind::Comma, 0int)) }
    else if c == ':' { Some((Kind::Colon, 0int)) }
    else if c == '.' { Some((Kind::Dot, 0int)) }
    else if c == '+' { Some((Kind::Plus, 0int)) }
    else if c == '-' { Some((Kind::Minus, 0int)) }
    else if c == '*' { Some((Kind::Star, 0int)) }
    else if c == '/' { Some((Kind::Slash, 0int)) }
    else if c == '%' { Some((Kind::Percent, 0int)) }
    else if c == '=' { Some((Kind::Equal, 0int)) }
    else if c == '<' { Some((Kind::Lt, 0int)) }
    else if c == '>' { Some((Kind::Gt, 0int)) }
    else { None }
}

pub open spec fn msg_unterminated_fstring(line: int) -> Seq<char> {
    "unterminated f-string line "@ + dec(line as nat)
}

pub open spec fn msg_unterminated_string(line: int) -> Seq<char> {
    "unterminated string line "@ + dec(line as nat)
}

pub open spec fn msg_unexpected(c: char, line: int) -> Seq<char> {
    "unexpected '"@.push(c) + "' line "@ + dec(line as nat)
}

pub open spec fn msg_indent(line: int) -> Seq<char> {
    "inconsistent indent at line "@ + dec(line as nat)
}

pub proof fn lemma_str_scan_moves(cs: Seq<char>, q: char, i: int, val: Seq<char>)
    ensures
        str_scan(cs, q, i, val).0 >= i,
    decreases cs.len() - i,
{
    if !(i < 0 || i >= cs.len() || cs[i] == q) {
        if cs[i] == '\\' {
            if i + 1 < cs.len() {
                lemma_str_scan_moves(cs, q, i + 2, val.push(unescape(cs[i + 1])));
            }
        } else {
            lemma_str_scan_moves(cs, q, i + 1, val.push(cs[i]));
        }
    }
}

pub proof fn lemma_tq_open_scan_moves(cs: Seq<char>, q: char, i: int, text: Seq<char>)
    ensures
        tq_open_scan(cs, q, i, text).0 >= i,
        tq_open_scan(cs, q, i, text).1 ==> tq_open_scan(cs, q, i, text).0 <= cs.len(),
    decreases cs.len() - i,
{
    if !(i < 0 || i >= cs.len()) {
        if !(text.len() > 0 && cs[i] == q && cs.len() - i > 2 && cs[i + 1] == q && cs[i + 2] == q) {
            lemma_tq_open_scan_moves(cs, q, i + 1, text.push(cs[i]));
        }
    }
}

pub proof fn lemma_ident_end(cs: Seq<char>, i: int)
    ensures
        ident_end(cs, i) >= i,
        0 <= i < cs.len() && is_ident_char(cs[i]) ==> ident_end(cs, i) > i,
        ident_end(cs, i) <= cs.len() || ident_end(cs, i) == i,
        forall|k: int| i <= k < ident_end(cs, i) ==> is_ident_char(#[trigger] cs[k]),
    decreases cs.len() - i,
{
    if 0 <= i < cs.len() && is_ident_char(cs[i]) {
        lemma_ident_end(cs, i + 1);
    }
}

pub proof fn lemma_digits_end(cs: Seq<char>, i: int)
    ensures
        digits_end(cs, i) >= i,
        0 <= i < cs.len() && is_ascii_digit(cs[i]) ==> digits_end(cs, i) > i,
        digits_end(cs, i) <= cs.len() || digits_end(cs, i) == i,
        forall|k: int| i <= k < digits_end(cs, i) ==> is_ascii_digit(#[trigger] cs[k]),
    decreases cs.len() - i,
{
    if 0 <= i < cs.len() && is_ascii_digit(cs[i]) {
        lemma_digits_end(cs, i + 1);
    }
}

/// Tokenizes a line from position `i` to its end.
pub open spec fn scan(st: LexState, cs: Seq<char>, i: int) -> Result<LexState, LexErr>
    decreases cs.len() - i,
{
    if i < 0 || i >= cs.len() {
        Ok(st)
    } else {
        let c = cs[i];
        let len = cs.len();
        if c == '#' {
            Ok(st)
        } else if is_ascii_ws(c) {
            scan(st, cs, i + 1)
        } else if (c == 'f' || c == 'F') && i + 1 < len && (cs[i + 1] == '\'' || cs[i + 1] == '"') {
            let (j, val) = str_scan(cs, cs[i + 1], i + 2, Seq::empty());
            if j >= len {
                lex_err(st, msg_unterminated_fstring(st.line))
            } else {
                proof { lemma_str_scan_moves(cs, cs[i + 1], i + 2, Seq::empty()); }
                scan(push_tok(st, Kind::FString(val), st.line, i + 1), cs, j + 1)
            }
        } else if is_ascii_alpha(c) || c == '_' {
            let j = ident_end(cs, i);
            proof { lemma_ident_end(cs, i); }
            scan(push_tok(st, keyword(cs.subrange(i, j)), st.line, i + 1), cs, j)
        } else if is_ascii_digit(c) {
            let j = digits_end(cs, i);
            proof { lemma_digits_end(cs, i); lemma_digits_end(cs, j + 1); }
            if j < len && cs[j] == '.' {
                let k = digits_end(cs, j + 1);
                scan(push_tok(st, Kind::Float(cs.subrange(i, k)), st.line, i + 1), cs, k)
            } else {
                scan(push_tok(st, Kind::Int(digits_value(cs.subrange(i, j))), st.line, i + 1), cs, j)
            }
        } else if c == '\'' || c == '"' {
            if i + 2 < len && cs[i + 1] == c && cs[i + 2] == c {
                let (j, closed, text) = tq_open_scan(cs, c, i + 3, Seq::<char>::empty());
                if closed {
                    proof { lemma_tq_open_scan_moves(cs, c, i + 3, Seq::<char>::empty()); }
                    let st1 = LexState { tq: None, tq_line: st.line, tq_text: Seq::empty(), ..st };
                    scan(push_tok(st1, Kind::Str(text), st.line, i + 1), cs, j)
                } else {
                    Ok(LexState { tq: Some(c), tq_line: st.line, tq_text: text, line: st.line + 1, ..st })
                }
            } else {
                let (j, val) = str_scan(cs, c, i + 1, Seq::empty());
                if j >= len {
                    lex_err(st, msg_unterminated_string(st.line))
                } else {
                    proof { lemma_str_scan_moves(cs, c, i + 1, Seq::empty()); }
                    scan(push_tok(st, Kind::Str(val), st.line, i + 1), cs, j + 1)
                }
            }
        } else if c == '@' && i + 1 < len && (is_ascii_alpha(cs[i + 1]) || cs[i + 1] == '_') {
            scan(push_tok(st, Kind::At, st.line, i + 1), cs, i + 1)
        } else if i + 1 < len && two_char_op(c, cs[i + 1]) is Some {
            scan(push_tok(st, two_char_op(c, cs[i + 1])->0, st.line, i + 1), cs, i + 2)
        } else {
            match one_char_op(c) {
                Some((k, d)) => scan(push_tok(LexState { paren: st.paren + d, ..st }, k, st.line, i + 1), cs, i + 1),
                None => lex_err(st, msg_unexpected(c, st.line)),
            }
        }
    }
}

/// Pops indentation levels deeper than `indent`, one `Dedent` each.
pub open spec fn dedent_to(st: LexState, indent: int) -> LexState
    decreases st.indents.len(),
{
    if st.indents.len() > 0 && indent < st.indents.last() {
        dedent_to(push_tok(LexState { indents: st.indents.drop_last(), ..st }, Kind::Dedent, st.line, 1), indent)
    } else {
        st
    }
}

/// Compares a line's indentation with the open levels.
pub open spec fn do_indent(st: LexState, indent: int) -> Result<LexState, LexErr> {
    if st.indents.len() > 0 && indent > st.indents.last() {
        Ok(push_tok(LexState { indents: st.indents.push(indent), ..st }, Kind::Indent, st.line, 1))
    } else {
        let st2 = dedent_to(st, indent);
        if st2.indents.len() == 0 || indent != st2.indents.last() {
            lex_err(st2, msg_indent(st.line))
        } else {
            Ok(st2)
        }
    }
}

/// A line whose content starts at `col`, indented by `indent`.
pub open spec fn lex_body(st: LexState, cs: Seq<char>, col: int, indent: int) -> Result<LexState, LexErr> {
    if col >= cs.len() || cs[col] == '#' {
        Ok(next_line(st))
    } else {
        let r = if st.paren == 0 { do_indent(st, indent) } else { Ok(st) };
        match r {
            Err(e) => Err(e),
            Ok(st2) => match scan(st2, cs, col) {
                Err(e) => Err(e),
                Ok(st3) => {
                    let st4 = if st3.paren == 0 { push_tok(st3, Kind::Newline, st3.line, cs.len() + 1int) } else { st3 };
                    Ok(next_line(st4))
                },
            },
        }
    }
}

/// Tokenizes one line.
pub open spec fn lex_line(st: LexState, cs: Seq<char>) -> Result<LexState, LexErr> {
    match st.tq {
        Some(q) => {
            let (i, closed, text) = tq_scan(cs, q, 0, false, st.tq_text);
            if !closed {
                Ok(next_line(LexState { tq_text: text, ..st }))
            } else {
                let st2 = push_tok(LexState { tq: None, tq_text: Seq::empty(), ..st }, Kind::Str(text), st.tq_line, 1);
                if i >= cs.len() {
                    Ok(next_line(st2))
                } else {
                    lex_body(st2, cs, 0, 0)
                }
            }
        },
        None => {
            let col = blank_end(cs, 0);
            lex_body(st, cs, col, indent_width(cs, 0, col))
        },
    }
}

/// Tokenizes a sequence of lines.
pub open spec fn lex_lines(st: LexState, ls: Seq<Seq<char>>) -> Result<LexState, LexErr>
    decreases ls.len(),
{
    if ls.len() == 0 {
        Ok(st)
    } else {
        match lex_line(st, ls[0]) {
            Err(e) => Err(e),
            Ok(st2) => lex_lines(st2, ls.drop_first()),
        }
    }
}

/// Closes every indentation level above the outermost one.
pub open spec fn close_levels(st: LexState) -> LexState
    decreases st.indents.len(),
{
    if st.indents.len() > 1 {
        close_levels(push_tok(LexState { indents: st.indents.drop_last(), ..st }, Kind::Dedent, st.line, 1))
    } else {
        st
    }
}

/// Closes every open indentation level, then ends the stream.
pub open spec fn finish(st: LexState) -> Seq<Tok> {
    let st2 = close_levels(st);
    st2.toks.push(Tok { kind: Kind::Eof, line: st2.line, col: 1 })
}

/// The token stream of a source text, or the message of the first error.
pub open spec fn spec_lex(src: Seq<char>) -> Result<Seq<Tok>, Seq<char>> {
    match lex_lines(init_state(), lines(src)) {
        Ok(st) => Ok(finish(st)),
        Err(e) => Err(e.msg),
    }
}


// ----------------------------------------------------------------------
// Indentation levels balance
// ----------------------------------------------------------------------

/// The number of `Indent` tokens minus the number of `Dedent` tokens.
pub open spec fn level_count(toks: Seq<Tok>) -> int
    decreases toks.len(),
{
    if toks.len() == 0 {
        0
    } else {
        level_count(toks.drop_last()) + match toks.last().kind {
            Kind::Indent => 1int,
            Kind::Dedent => -1int,
            _ => 0int,
        }
    }
}

/// Every level opened by an `Indent` and not yet closed is still on the
/// stack of levels, above the outermost level, which is column zero.
pub open spec fn levels_match(st: LexState) -> bool {
    &&& level_count(st.toks) == st.indents.len() - 1
    &&& st.indents.len() >= 1
    &&& st.indents[0] == 0
    &&& nested(st.toks)
    &&& no_eof(st.toks)
}

/// Whether every prefix of the stream has at least as many `Indent` tokens
/// as `Dedent` tokens.
pub open spec fn nested(toks: Seq<Tok>) -> bool {
    forall|i: int| 0 <= i <= toks.len() ==> level_count(#[trigger] toks.take(i)) >= 0
}

/// Whether no token of the stream is `Eof`.
pub open spec fn no_eof(toks: Seq<Tok>) -> bool {
    forall|i: int| 0 <= i < toks.len() ==> !(#[trigger] toks[i].kind is Eof)
}

proof fn lemma_nested_push(toks: Seq<Tok>, t: Tok)
    requires
        nested(toks),
        level_count(toks.push(t)) >= 0,
    ensures
        nested(toks.push(t)),
{
    assert forall|i: int| 0 <= i <= toks.push(t).len() implies level_count(#[trigger] toks.push(t).take(i)) >= 0 by {
        if i <= toks.len() {
            assert(toks.push(t).take(i) =~= toks.take(i));
        } else {
            assert(toks.push(t).take(i) =~= toks.push(t));
        }
    }
}

proof fn lemma_keep_levels(toks: Seq<Tok>, t: Tok)
    requires
        nested(toks),
        no_eof(toks),
        !(t.kind is Eof),
        level_count(toks.push(t)) >= 0,
    ensures
        nested(toks.push(t)),
        no_eof(toks.push(t)),
{
    lemma_nested_push(toks, t);
    assert forall|i: int| 0 <= i < toks.push(t).len() implies !(#[trigger] toks.push(t)[i].kind is Eof) by {
        if i < toks.len() {
            assert(toks.push(t)[i] == toks[i]);
        }
    }
}

proof fn lemma_level_push(toks: Seq<Tok>, t: Tok)
    ensures
        level_count(toks.push(t)) == level_count(toks) + match t.kind {
            Kind::Indent => 1int,
            Kind::Dedent => -1int,
            _ => 0int,
        },
{
    assert(toks.push(t).drop_last() =~= toks);
}

proof fn lemma_keyword_plain(w: Seq<char>)
    ensures
        !(keyword(w) is Indent) && !(keyword(w) is Dedent) && !(keyword(w) is Eof),
{
}

proof fn lemma_indent_width_nonneg(cs: Seq<char>, i: int, j: int)
    ensures
        indent_width(cs, i, j) >= 0,
    decreases j - i,
{
    if i < j {
        lemma_indent_width_nonneg(cs, i, j - 1);
    }
}

proof fn lemma_push_plain(st: LexState, kind: Kind, line: int, col: int)
    requires
        levels_match(st),
        !(kind is Indent),
        !(kind is Dedent),
        !(kind is Eof),
    ensures
        levels_match(push_tok(st, kind, line, col)),
{
    lemma_level_push(st.toks, Tok { kind, line, col });
    lemma_keep_levels(st.toks, Tok { kind, line, col });
}

proof fn lemma_scan_levels(st: LexState, cs: Seq<char>, i: int)
    requires
        levels_match(st),
    ensures
        scan(st, cs, i) matches Ok(st2) ==> levels_match(st2),
    decreases cs.len() - i,
{
    if i < 0 || i >= cs.len() {
    } else {
        let c = cs[i];
        let len = cs.len();
        if c == '#' {
        } else if is_ascii_ws(c) {
            lemma_scan_levels(st, cs, i + 1);
        } else if (c == 'f' || c == 'F') && i + 1 < len && (cs[i + 1] == '\'' || cs[i + 1] == '"') {
            let (j, val) = str_scan(cs, cs[i + 1], i + 2, Seq::empty());
            if j < len {
                lemma_str_scan_moves(cs, cs[i + 1], i + 2, Seq::empty());
                lemma_push_plain(st, Kind::FString(val), st.line, i + 1);
                lemma_scan_levels(push_tok(st, Kind::FString(val), st.line, i + 1), cs, j + 1);
            }
        } else if is_ascii_alpha(c) || c == '_' {
            let j = ident_end(cs, i);
            lemma_ident_end(cs, i);
            lemma_keyword_plain(cs.subrange(i, j));
            lemma_push_plain(st, keyword(cs.subrange(i, j)), st.line, i + 1);
            lemma_scan_levels(push_tok(st, keyword(cs.subrange(i, j)), st.line, i + 1), cs, j);
        } else if is_ascii_digit(c) {
            let j = digits_end(cs, i);
            lemma_digits_end(cs, i);
            lemma_digits_end(cs, j + 1);
            if j < len && cs[j] == '.' {
                let k = digits_end(cs, j + 1);
                lemma_push_plain(st, Kind::Float(cs.subrange(i, k)), st.line, i + 1);
                lemma_scan_levels(push_tok(st, Kind::Float(cs.subrange(i, k)), st.line, i + 1), cs, k);
            } else {
                lemma_push_plain(st, Kind::Int(digits_value(cs.subrange(i, j))), st.line, i + 1);
                lemma_scan_levels(push_tok(st, Kind::Int(digits_value(cs.subrange(i, j))), st.line, i + 1), cs, j);
            }
        } else if c == '\'' || c == '"' {
            if i + 2 < len && cs[i + 1] == c && cs[i + 2] == c {
                let (j, closed, text) = tq_open_scan(cs, c, i + 3, Seq::<char>::empty());
                if closed {
                    lemma_tq_open_scan_moves(cs, c, i + 3, Seq::<char>::empty());
                    let st1 = LexState { tq: None, tq_line: st.line, tq_text: Seq::empty(), ..st };
                    lemma_push_plain(st1, Kind::Str(text), st.line, i + 1);
                    lemma_scan_levels(push_tok(st1, Kind::Str(text), st.line, i + 1), cs, j);
                }
            } else {
                let (j, val) = str_scan(cs, c, i + 1, Seq::empty());
                if j < len {
                    lemma_str_scan_moves(cs, c, i + 1, Seq::empty());
                    lemma_push_plain(st, Kind::Str(val), st.line, i + 1);
                    lemma_scan_levels(push_tok(st, Kind::Str(val), st.line, i + 1), cs, j + 1);
                }
            }
        } else if c == '@' && i + 1 < len && (is_ascii_alpha(cs[i + 1]) || cs[i + 1] == '_') {
            lemma_push_plain(st, Kind::At, st.line, i + 1);
            lemma_scan_levels(push_tok(st, Kind::At, st.line, i + 1), cs, i + 1);
        } else if i + 1 < len && two_char_op(c, cs[i + 1]) is Some {
            lemma_push_plain(st, two_char_op(c, cs[i + 1])->0, st.line, i + 1);
            lemma_scan_levels(push_tok(st, two_char_op(c, cs[i + 1])->0, st.line, i + 1), cs, i + 2);
        } else {
            match one_char_op(c) {
                Some((k, d)) => {
                    let st1 = LexState { paren: st.paren + d, ..st };
                    lemma_push_plain(st1, k, st.line, i + 1);
                    lemma_scan_levels(push_tok(st1, k, st.line, i + 1), cs, i + 1);
                },
                None => {},
            }
        }
    }
}

proof fn lemma_dedent_levels(st: LexState, indent: int)
    requires
        levels_match(st),
        indent >= 0,
    ensures
        levels_match(dedent_to(st, indent)),
    decreases st.indents.len(),
{
    if st.indents.len() > 0 && indent < st.indents.last() {
        let st1 = LexState { indents: st.indents.drop_last(), ..st };
        lemma_level_push(st1.toks, Tok { kind: Kind::Dedent, line: st.line, col: 1 });
        assert(st.indents.len() > 1);
        lemma_keep_levels(st1.toks, Tok { kind: Kind::Dedent, line: st.line, col: 1 });
        lemma_dedent_levels(push_tok(st1, Kind::Dedent, st.line, 1), indent);
    }
}

proof fn lemma_body_levels(st: LexState, cs: Seq<char>, col: int, indent: int)
    requires
        levels_match(st),
        indent >= 0,
    ensures
        lex_body(st, cs, col, indent) matches Ok(st2) ==> levels_match(st2),
{
    if col >= cs.len() || cs[col] == '#' {
    } else {
        let r = if st.paren == 0 { do_indent(st, indent) } else { Ok(st) };
        if st.paren == 0 {
            if st.indents.len() > 0 && indent > st.indents.last() {
                let st1 = LexState { indents: st.indents.push(indent), ..st };
                lemma_level_push(st1.toks, Tok { kind: Kind::Indent, line: st.line, col: 1 });
                lemma_keep_levels(st1.toks, Tok { kind: Kind::Indent, line: st.line, col: 1 });
            } else {
                lemma_dedent_levels(st, indent);
            }
        }
        match r {
            Err(_) => {},
            Ok(st2) => {
                lemma_scan_levels(st2, cs, col);
                match scan(st2, cs, col) {
                    Err(_) => {},
                    Ok(st3) => {
                        if st3.paren == 0 {
                            lemma_push_plain(st3, Kind::Newline, st3.line, cs.len() + 1int);
                        }
                    },
                }
            },
        }
    }
}

proof fn lemma_line_levels(st: LexState, cs: Seq<char>)
    requires
        levels_match(st),
    ensures
        lex_line(st, cs) matches Ok(st2) ==> levels_match(st2),
{
    match st.tq {
        Some(q) => {
            let (i, closed, text) = tq_scan(cs, q, 0, false, st.tq_text);
            if closed {
                let st1 = LexState { tq: None, tq_text: Seq::empty(), ..st };
                lemma_push_plain(st1, Kind::Str(text), st.tq_line, 1);
                let st2 = push_tok(st1, Kind::Str(text), st.tq_line, 1);
                if i < cs.len() {
                    lemma_body_levels(st2, cs, 0, 0);
                }
            }
        },
        None => {
            let col = blank_end(cs, 0);
            lemma_indent_width_nonneg(cs, 0, col);
            lemma_body_levels(st, cs, col, indent_width(cs, 0, col));
        },
    }
}

proof fn lemma_lines_levels(st: LexState, ls: Seq<Seq<char>>)
    requires
        levels_match(st),
    ensures
        lex_lines(st, ls) matches Ok(st2) ==> levels_match(st2),
    decreases ls.len(),
{
    if ls.len() > 0 {
        lemma_line_levels(st, ls[0]);
        match lex_line(st, ls[0]) {
            Ok(st2) => lemma_lines_levels(st2, ls.drop_first()),
            Err(_) => {},
        }
    }
}

proof fn lemma_close_levels(st: LexState)
    requires
        levels_match(st),
    ensures
        level_count(close_levels(st).toks) == 0,
        nested(close_levels(st).toks),
        no_eof(close_levels(st).toks),
    decreases st.indents.len(),
{
    if st.indents.len() > 1 {
        let st1 = LexState { indents: st.indents.drop_last(), ..st };
        lemma_level_push(st1.toks, Tok { kind: Kind::Dedent, line: st.line, col: 1 });
        lemma_keep_levels(st1.toks, Tok { kind: Kind::Dedent, line: st.line, col: 1 });
        lemma_close_levels(push_tok(st1, Kind::Dedent, st.line, 1));
    }
}

/// Whether `s` can stand inside a string quoted by `q` as it is: it holds
/// neither the quote nor a backslash.
pub open spec fn plain_in(s: Seq<char>, q: char) -> bool {
    forall|j: int| 0 <= j < s.len() ==> s[j] != q && s[j] != '\\'
}

proof fn lemma_str_scan_plain(cs: Seq<char>, q: char, i: int, val: Seq<char>, n: int)
    requires
        0 <= i,
        0 <= n,
        i + n <= cs.len(),
        forall|j: int| i <= j < i + n ==> cs[j] != q && cs[j] != '\\',
    ensures
        str_scan(cs, q, i, val) == str_scan(cs, q, i + n, val + cs.subrange(i, i + n)),
    decreases n,
{
    if n > 0 {
        lemma_str_scan_plain(cs, q, i + 1, val.push(cs[i]), n - 1);
        assert(val.push(cs[i]) + cs.subrange(i + 1, i + n) =~= val + cs.subrange(i, i + n));
    } else {
        assert(val + cs.subrange(i, i) =~= val);
    }
}

/// The character that the escape sequence of a backslash and `c` stands
/// for inside a string: a tab for `t`, a newline for `n`, and `c` itself
/// otherwise.
pub open spec fn escaped_char(c: char) -> char {
    if c == 't' {
        '\t'
    } else if c == 'n' {
        '\n'
    } else {
        c
    }
}

/// The one-line string literal `q a \c b q`: `a` and `b` stand for
/// themselves, and the escape for the character listed above.
pub open spec fn escaped_literal(q: char, a: Seq<char>, c: char, b: Seq<char>) -> Seq<char> {
    seq![q] + a + seq!['\\', c] + b + seq![q]
}

/// Inside a one-line string, text other than the quote and the backslash
/// stands for itself, `\t` stands for a tab, `\n` for a newline, and a
/// backslash before any other character stands for that character; the
/// string ends at its closing quote.
pub proof fn law_string_escapes(p: Seq<char>, a: Seq<char>, c: char, b: Seq<char>, q: char, rest: Seq<char>)
    requires
        q == '\'' || q == '"',
        plain_in(a, q),
        plain_in(b, q),
    ensures
        ({
            let cs = p + escaped_literal(q, a, c, b) + rest;
            let i = p.len() + 1int;
            &&& str_scan(cs, q, i, Seq::empty()).0 == p.len() + escaped_literal(q, a, c, b).len() - 1
            &&& str_scan(cs, q, i, Seq::empty()).1 == a + seq![escaped_char(c)] + b
        }),
        c == 't' ==> escaped_char(c) == '\t',
        c == 'n' ==> escaped_char(c) == '\n',
{
    let cs = p + escaped_literal(q, a, c, b) + rest;
    let i0: int = p.len() + 1int;
    let i: int = i0 + a.len();
    assert(cs.subrange(i0, i) =~= a);
    assert forall|j: int| i0 <= j < i implies cs[j] != q && cs[j] != '\\' by {
        assert(cs[j] == a[j - i0]);
    }
    lemma_str_scan_plain(cs, q, i0, Seq::empty(), a.len() as int);
    assert(Seq::<char>::empty() + a =~= a);
    assert(cs[i] == '\\');
    assert(cs[i + 1] == c);
    let e = unescape(c);
    assert(e == escaped_char(c));
    assert(str_scan(cs, q, i, a) == str_scan(cs, q, i + 2, a.push(e)));
    let j: int = i + 2;
    assert(cs.subrange(j, j + b.len()) =~= b);
    assert forall|k: int| j <= k < j + b.len() implies cs[k] != q && cs[k] != '\\' by {
        assert(cs[k] == b[k - j]);
    }
    lemma_str_scan_plain(cs, q, j, a.push(e), b.len() as int);
    assert(cs[j + b.len()] == q);
    assert(a.push(e) + b =~= a + seq![e] + b);
}

/// Lexing a line reaches a one-line string literal with an escape in it and
/// emits one string token holding the text the literal stands for, then goes
/// on after the closing quote.
pub proof fn law_string_token(st: LexState, p: Seq<char>, a: Seq<char>, c: char, b: Seq<char>, q: char, rest: Seq<char>)
    requires
        q == '\'' || q == '"',
        plain_in(a, q),
        plain_in(b, q),
    ensures
        ({
            let cs = p + escaped_literal(q, a, c, b) + rest;
            scan(st, cs, p.len() as int) == scan(
                push_tok(st, Kind::Str(a + seq![escaped_char(c)] + b), st.line, p.len() + 1int),
                cs,
                p.len() + escaped_literal(q, a, c, b).len() as int,
            )
        }),
{
    let cs = p + escaped_literal(q, a, c, b) + rest;
    let i = p.len() as int;
    law_string_escapes(p, a, c, b, q, rest);
    assert(cs[i] == q);
    if a.len() > 0 {
        assert(cs[i + 1] == a[0]);
    } else {
        assert(cs[i + 1] == '\\');
    }
    assert(!is_ascii_ws(q) && !is_ascii_alpha(q) && !is_ascii_digit(q) && q != '#' && q != '_' && q != 'f' && q != 'F');
}

/// A token stream ends with `Eof` and holds no other; its `Indent` and
/// `Dedent` tokens are well nested: no prefix has more `Dedent`s than
/// `Indent`s, and the whole stream has as many of each.
pub proof fn law_tokens_end_and_balance(src: Seq<char>)
    ensures
        spec_lex(src) matches Ok(toks) ==> {
            &&& toks.len() > 0
            &&& toks.last().kind is Eof
            &&& forall|i: int| 0 <= i < toks.len() - 1 ==> !(#[trigger] toks[i].kind is Eof)
            &&& level_count(toks) == 0
            &&& forall|i: int| 0 <= i <= toks.len() ==> level_count(#[trigger] toks.take(i)) >= 0
        },
{
    assert(levels_match(init_state())) by {
        assert(level_count(Seq::<Tok>::empty()) == 0);
        assert forall|i: int| 0 <= i <= 0 implies level_count(#[trigger] Seq::<Tok>::empty().take(i)) >= 0 by {
            assert(Seq::<Tok>::empty().take(i) =~= Seq::<Tok>::empty());
        }
    }
    lemma_lines_levels(init_state(), lines(src));
    match lex_lines(init_state(), lines(src)) {
        Ok(st) => {
            lemma_close_levels(st);
            let st2 = close_levels(st);
            let t = Tok { kind: Kind::Eof, line: st2.line, col: 1 };
            lemma_level_push(st2.toks, t);
            lemma_nested_push(st2.toks, t);
            let toks = st2.toks.push(t);
            assert forall|i: int| 0 <= i < toks.len() - 1 implies !(#[trigger] toks[i].kind is Eof) by {
                assert(toks[i] == st2.toks[i]);
            }
        },
        Err(_) => {},
    }
}

/// Whether tokenizing `src` reads an integer literal too large for `i64`.
pub open spec fn lex_overflows(src: Seq<char>) -> bool {
    end_state(lex_lines(init_state(), lines(src))).big
}


// ----------------------------------------------------------------------
// The executable tokenizer
// ----------------------------------------------------------------------

/// The token kind a word stands for.
fn keyword_kind(w: &Vec<char>) -> (k: TokenKind)
    ensures
        k@ == keyword(w@),
{
    if chars_eq(w.as_slice(), &['d', 'e', 'f']) {
        proof { assert(['d', 'e', 'f']@ =~= seq!['d', 'e', 'f']); }
        return TokenKind::Def;
    }
    proof { assert(['d', 'e', 'f']@ =~= seq!['d', 'e', 'f']); }
    if chars_eq(w.as_slice(), &['c', 'l', 'a', 's', 's']) {
        proof { assert(['c', 'l', 'a', 's', 's']@ =~= seq!['c', 'l', 'a', 's', 's']); }
        return TokenKind::Class;
    }
    proof { assert(['c', 'l', 'a', 's', 's']@ =~= seq!['c', 'l', 'a', 's', 's']); }
    if chars_eq(w.as_slice(), &['i', 'f']) {
        proof { assert(['i', 'f']@ =~= seq!['i', 'f']); }
        return TokenKind::If;
    }
    proof { assert(['i', 'f']@ =~= seq!['i', 'f']); }
    if chars_eq(w.as_slice(), &['e', 'l', 'i', 'f']) {
        proof { assert(['e', 'l', 'i', 'f']@ =~= seq!['e', 'l', 'i', 'f']); }
        return TokenKind::Elif;
    }
    proof { assert(['e', 'l', 'i', 'f']@ =~= seq!['e', 'l', 'i', 'f']); }
    if chars_eq(w.as_slice(), &['e', 'l', 's', 'e']) {
        proof { assert(['e', 'l', 's', 'e']@ =~= seq!['e', 'l', 's', 'e']); }
        return TokenKind::Else;
    }
    proof { assert(['e', 'l', 's', 'e']@ =~= seq!['e', 'l', 's', 'e']); }
    if chars_eq(w.as_slice(), &['w', 'h', 'i', 'l', 'e']) {
        proof { assert(['w', 'h', 'i', 'l', 'e']@ =~= seq!['w', 'h', 'i', 'l', 'e']); }
        return TokenKind::While;
    }
    proof { assert(['w', 'h', 'i', 'l', 'e']@ =~= seq!['w', 'h', 'i', 'l', 'e']); }
    if chars_eq(w.as_slice(), &['f', 'o', 'r']) {
        proof { assert(['f', 'o', 'r']@ =~= seq!['f', 'o', 'r']); }
        return TokenKind::For;
    }
    proof { assert(['f', 'o', 'r']@ =~= seq!['f', 'o', 'r']); }
    if chars_eq(w.as_slice(), &['i', 'n']) {
        proof { assert(['i', 'n']@ =~= seq!['i', 'n']); }
        return TokenKind::In;
    }
    proof { assert(['i', 'n']@ =~= seq!['i', 'n']); }
    if chars_eq(w.as_slice(), &['r', 'e', 't', 'u', 'r', 'n']) {
        proof { assert(['r', 'e', 't', 'u', 'r', 'n']@ =~= seq!['r', 'e', 't', 'u', 'r', 'n']); }
        return TokenKind::Return;
    }
    proof { assert(['r', 'e', 't', 'u', 'r', 'n']@ =~= seq!['r', 'e', 't', 'u', 'r', 'n']); }
    if chars_eq(w.as_slice(), &['b', 'r', 'e', 'a', 'k']) {
        proof { assert(['b', 'r', 'e', 'a', 'k']@ =~= seq!['b', 'r', 'e', 'a', 'k']); }
        return TokenKind::Break;
    }
    proof { assert(['b', 'r', 'e', 'a', 'k']@ =~= seq!['b', 'r', 'e', 'a', 'k']); }
    if chars_eq(w.as_slice(), &['c', 'o', 'n', 't', 'i', 'n', 'u', 'e']) {
        proof { assert(['c', 'o', 'n', 't', 'i', 'n', 'u', 'e']@ =~= seq!['c', 'o', 'n', 't', 'i', 'n', 'u', 'e']); }
        return TokenKind::Continue;
    }
    proof { assert(['c', 'o', 'n', 't', 'i', 'n', 'u', 'e']@ =~= seq!['c', 'o', 'n', 't', 'i', 'n', 'u', 'e']); }
    if chars_eq(w.as_slice(), &['p', 'a', 's', 's']) {
        proof { assert(['p', 'a', 's', 's']@ =~= seq!['p', 'a', 's', 's']); }
        return TokenKind::Pass;
    }
    proof { assert(['p', 'a', 's', 's']@ =~= seq!['p', 'a', 's', 's']); }
    if chars_eq(w.as_slice(), &['t', 'r', 'y']) {
        proof { assert(['t', 'r', 'y']@ =~= seq!['t', 'r', 'y']); }
        return TokenKind::Try;
    }
    proof { assert(['t', 'r', 'y']@ =~= seq!['t', 'r', 'y']); }
    if chars_eq(w.as_slice(), &['e', 'x', 'c', 'e', 'p', 't']) {
        proof { assert(['e', 'x', 'c', 'e', 'p', 't']@ =~= seq!['e', 'x', 'c', 'e', 'p', 't']); }
        return TokenKind::Except;
    }
    proof { assert(['e', 'x', 'c', 'e', 'p', 't']@ =~= seq!['e', 'x', 'c', 'e', 'p', 't']); }
    if chars_eq(w.as_slice(), &['r', 'a', 'i', 's', 'e']) {
        proof { assert(['r', 'a', 'i', 's', 'e']@ =~= seq!['r', 'a', 'i', 's', 'e']); }
        return TokenKind::Raise;
    }
    proof { assert(['r', 'a', 'i', 's', 'e']@ =~= seq!['r', 'a', 'i', 's', 'e']); }
    if chars_eq(w.as_slice(), &['a', 's']) {
        proof { assert(['a', 's']@ =~= seq!['a', 's']); }
        return TokenKind::As;
    }
    proof { assert(['a', 's']@ =~= seq!['a', 's']); }
    if chars_eq(w.as_slice(), &['a', 'n', 'd']) {
        proof { assert(['a', 'n', 'd']@ =~= seq!['a', 'n', 'd']); }
        return TokenKind::And;
    }
    proof { assert(['a', 'n', 'd']@ =~= seq!['a', 'n', 'd']); }
    if chars_eq(w.as_slice(), &['o', 'r']) {
        proof { assert(['o', 'r']@ =~= seq!['o', 'r']); }
        return TokenKind::Or;
    }
    proof { assert(['o', 'r']@ =~= seq!['o', 'r']); }
    if chars_eq(w.as_slice(), &['n', 'o', 't']) {
        proof { assert(['n', 'o', 't']@ =~= seq!['n', 'o', 't']); }
        return TokenKind::Not;
    }
    proof { assert(['n', 'o', 't']@ =~= seq!['n', 'o', 't']); }
    if chars_eq(w.as_slice(), &['N', 'o', 'n', 'e']) {
        proof { assert(['N', 'o', 'n', 'e']@ =~= seq!['N', 'o', 'n', 'e']); }
        return TokenKind::NoneVal;
    }
    proof { assert(['N', 'o', 'n', 'e']@ =~= seq!['N', 'o', 'n', 'e']); }
    if chars_eq(w.as_slice(), &['T', 'r', 'u', 'e']) {
        proof { assert(['T', 'r', 'u', 'e']@ =~= seq!['T', 'r', 'u', 'e']); }
        return TokenKind::TrueVal;
    }
    proof { assert(['T', 'r', 'u', 'e']@ =~= seq!['T', 'r', 'u', 'e']); }
    if chars_eq(w.as_slice(), &['F', 'a', 'l', 's', 'e']) {
        proof { assert(['F', 'a', 'l', 's', 'e']@ =~= seq!['F', 'a', 'l', 's', 'e']); }
        return TokenKind::FalseVal;
    }
    proof { assert(['F', 'a', 'l', 's', 'e']@ =~= seq!['F', 'a', 'l', 's', 'e']); }
    if chars_eq(w.as_slice(), &['l', 'a', 'm', 'b', 'd', 'a']) {
        proof { assert(['l', 'a', 'm', 'b', 'd', 'a']@ =~= seq!['l', 'a', 'm', 'b', 'd', 'a']); }
        return TokenKind::Lambda;
    }
    proof { assert(['l', 'a', 'm', 'b', 'd', 'a']@ =~= seq!['l', 'a', 'm', 'b', 'd', 'a']); }
    if chars_eq(w.as_slice(), &['i', 'm', 'p', 'o', 'r', 't']) {
        proof { assert(['i', 'm', 'p', 'o', 'r', 't']@ =~= seq!['i', 'm', 'p', 'o', 'r', 't']); }
        return TokenKind::Import;
    }
    proof { assert(['i', 'm', 'p', 'o', 'r', 't']@ =~= seq!['i', 'm', 'p', 'o', 'r', 't']); }
    if chars_eq(w.as_slice(), &['f', 'r', 'o', 'm']) {
        proof { assert(['f', 'r', 'o', 'm']@ =~= seq!['f', 'r', 'o', 'm']); }
        return TokenKind::From;
    }
    proof { assert(['f', 'r', 'o', 'm']@ =~= seq!['f', 'r', 'o', 'm']); }
    if chars_eq(w.as_slice(), &['y', 'i', 'e', 'l', 'd']) {
        proof { assert(['y', 'i', 'e', 'l', 'd']@ =~= seq!['y', 'i', 'e', 'l', 'd']); }
        return TokenKind::Yield;
    }
    proof { assert(['y', 'i', 'e', 'l', 'd']@ =~= seq!['y', 'i', 'e', 'l', 'd']); }
    TokenKind::Name(string_of(w.as_slice()))
}

/// Scans the body of a one-line string; see `str_scan`.
fn scan_quoted(cs: &Vec<char>, q: char, i0: usize) -> (r: (usize, Vec<char>))
    requires
        i0 <= cs.len(),
    ensures
        r.0 as int == str_scan(cs@, q, i0 as int, Seq::empty()).0,
        r.1@ == str_scan(cs@, q, i0 as int, Seq::empty()).1,
        r.0 <= cs.len(),
{
    let mut i = i0;
    let mut val: Vec<char> = Vec::new();
    loop
        invariant
            i0 <= i <= cs.len(),
            str_scan(cs@, q, i as int, val@) == str_scan(cs@, q, i0 as int, Seq::empty()),
        decreases cs.len() - i,
    {
        if i >= cs.len() || cs[i] == q {
            return (i, val);
        }
        if cs[i] == '\\' {
            if i + 1 >= cs.len() {
                return (i + 1, val);
            }
            let c = cs[i + 1];
            let u = if c == 'n' { '\n' } else if c == 't' { '\t' } else { c };
            val.push(u);
            i = i + 2;
        } else {
            val.push(cs[i]);
            i = i + 1;
        }
    }
}

/// Scans the rest of the line a triple-quoted string opens on; see `tq_open_scan`.
fn scan_triple_open(cs: &Vec<char>, q: char, i0: usize) -> (r: (usize, bool, Vec<char>))
    requires
        i0 <= cs.len(),
    ensures
        (r.0 as int, r.1, r.2@) == tq_open_scan(cs@, q, i0 as int, Seq::empty()),
        r.0 <= cs.len(),
{
    let mut i = i0;
    let mut text: Vec<char> = Vec::new();
    loop
        invariant
            i0 <= i <= cs.len(),
            tq_open_scan(cs@, q, i as int, text@) == tq_open_scan(cs@, q, i0 as int, Seq::empty()),
        decreases cs.len() - i,
    {
        if i >= cs.len() {
            return (i, false, text);
        }
        if text.len() > 0 && cs[i] == q && cs.len() - i > 2 && cs[i + 1] == q && cs[i + 2] == q {
            return (i + 3, true, text);
        }
        text.push(cs[i]);
        i = i + 1;
    }
}

/// Continues an open triple-quoted string on a new line; see `tq_scan`.
fn scan_triple_rest(cs: &Vec<char>, q: char, text: &mut Vec<char>) -> (r: (usize, bool))
    ensures
        (r.0 as int, r.1, final(text)@) == tq_scan(cs@, q, 0, false, old(text)@),
        r.0 <= cs.len(),
{
    let mut i: usize = 0;
    let mut escaped = false;
    loop
        invariant
            i <= cs.len(),
            tq_scan(cs@, q, i as int, escaped, text@) == tq_scan(cs@, q, 0, false, old(text)@),
        decreases cs.len() - i,
    {
        if i >= cs.len() {
            return (i, false);
        }
        if !escaped && cs[i] == q && cs.len() - i > 2 && cs[i + 1] == q && cs[i + 2] == q {
            return (i + 3, true);
        }
        escaped = !escaped && cs[i] == '\\' && i + 1 < cs.len();
        text.push(cs[i]);
        i = i + 1;
    }
}

fn scan_ident_end(cs: &Vec<char>, i0: usize) -> (j: usize)
    requires
        i0 <= cs.len(),
    ensures
        j as int == ident_end(cs@, i0 as int),
        i0 <= j <= cs.len(),
{
    let mut i = i0;
    while i < cs.len() && ident_char(cs[i])
        invariant
            i0 <= i <= cs.len(),
            ident_end(cs@, i as int) == ident_end(cs@, i0 as int),
        decreases cs.len() - i,
    {
        i = i + 1;
    }
    i
}

fn scan_digits_end(cs: &Vec<char>, i0: usize) -> (j: usize)
    requires
        i0 <= cs.len(),
    ensures
        j as int == digits_end(cs@, i0 as int),
        i0 <= j <= cs.len(),
{
    let mut i = i0;
    while i < cs.len() && ascii_digit(cs[i])
        invariant
            i0 <= i <= cs.len(),
            digits_end(cs@, i as int) == digits_end(cs@, i0 as int),
        decreases cs.len() - i,
    {
        i = i + 1;
    }
    i
}

/// The leading blanks of a line: where they end and how wide they indent.
fn scan_blanks(cs: &Vec<char>) -> (r: (usize, usize))
    requires
        cs.len() < 0x2000_0000,
    ensures
        r.0 as int == blank_end(cs@, 0),
        r.1 as int == indent_width(cs@, 0, r.0 as int),
        r.0 <= cs.len(),
{
    let mut i: usize = 0;
    let mut w: usize = 0;
    while i < cs.len() && (cs[i] == ' ' || cs[i] == '\t')
        invariant
            i <= cs.len(),
            cs.len() < 0x2000_0000,
            blank_end(cs@, i as int) == blank_end(cs@, 0),
            w as int == indent_width(cs@, 0, i as int),
            w <= 4 * i,
        decreases cs.len() - i,
    {
        w = w + if cs[i] == '\t' { 4 } else { 1 };
        i = i + 1;
    }
    (i, w)
}

/// The value of a run of decimal digits, if it fits in `i64`.
fn digits_to_i64(cs: &Vec<char>, i0: usize, j: usize) -> (r: Option<i64>)
    requires
        i0 <= j <= cs.len(),
        forall|k: int| i0 <= k < j ==> is_ascii_digit(#[trigger] cs@[k]),
    ensures
        match r {
            Some(v) => v as int == digits_value(cs@.subrange(i0 as int, j as int)),
            None => digits_value(cs@.subrange(i0 as int, j as int)) > i64::MAX,
        },
{
    let mut v: u64 = 0;
    let mut i = i0;
    while i < j
        invariant
            i0 <= i <= j <= cs.len(),
            forall|k: int| i0 <= k < j ==> is_ascii_digit(#[trigger] cs@[k]),
            v as int == digits_value(cs@.subrange(i0 as int, i as int)),
            v <= 0x7FFF_FFFF_FFFF_FFFF,
        decreases j - i,
    {
        proof {
            lemma_digits_value_prefix(cs@.subrange(i0 as int, j as int), (i - i0) as int);
            assert(cs@.subrange(i0 as int, j as int).subrange(0, (i - i0) as int) =~= cs@.subrange(i0 as int, i as int));
            assert(cs@.subrange(i0 as int, j as int).subrange(0, (i + 1 - i0) as int) =~= cs@.subrange(i0 as int, i + 1));
            assert(cs@.subrange(i0 as int, i + 1).drop_last() =~= cs@.subrange(i0 as int, i as int));
            assert(is_ascii_digit(cs@[i as int]));
        }
        let d = (cs[i] as u32 - 48) as u64;
        if v > (0x7FFF_FFFF_FFFF_FFFFu64 - d) / 10 {
            proof {
                assert(v * 10 + d > 0x7FFF_FFFF_FFFF_FFFF) by (nonlinear_arith)
                    requires
                        v > (0x7FFF_FFFF_FFFF_FFFFu64 - d) / 10,
                        d <= 9;
            }
            return None;
        }
        proof {
            assert(v * 10 + d <= 0x7FFF_FFFF_FFFF_FFFF) by (nonlinear_arith)
                requires
                    v <= (0x7FFF_FFFF_FFFF_FFFFu64 - d) / 10,
                    d <= 9;
        }
        v = v * 10 + d;
        i = i + 1;
    }
    Some(v as i64)
}

proof fn lemma_digits_value_nonneg(s: Seq<char>)
    requires
        forall|k: int| 0 <= k < s.len() ==> is_ascii_digit(#[trigger] s[k]),
    ensures
        digits_value(s) >= 0,
    decreases s.len(),
{
    if s.len() > 0 {
        lemma_digits_value_nonneg(s.drop_last());
    }
}

/// A prefix of a digit string has no larger value, and the next prefix grows by one digit.
proof fn lemma_digits_value_prefix(s: Seq<char>, n: int)
    requires
        0 <= n < s.len(),
        forall|k: int| 0 <= k < s.len() ==> is_ascii_digit(#[trigger] s[k]),
    ensures
        digits_value(s.subrange(0, n + 1)) == digits_value(s.subrange(0, n)) * 10 + digit_value(s[n]),
        digits_value(s.subrange(0, n + 1)) <= digits_value(s),
        digits_value(s.subrange(0, n)) >= 0,
    decreases s.len(),
{
    assert(s.subrange(0, n + 1).drop_last() =~= s.subrange(0, n));
    lemma_digits_value_nonneg(s.subrange(0, n));
    if n + 1 < s.len() {
        lemma_digits_value_prefix(s.drop_last(), n);
        assert(s.drop_last().subrange(0, n + 1) =~= s.subrange(0, n + 1));
        assert(s.drop_last().subrange(0, n) =~= s.subrange(0, n));
        lemma_digits_value_nonneg(s.drop_last());
    } else {
        assert(s.subrange(0, n + 1) =~= s);
    }
}


/// Reading a too-large integer literal is never forgotten by a scan.
proof fn lemma_scan_big(st: LexState, cs: Seq<char>, i: int)
    ensures
        st.big ==> end_state(scan(st, cs, i)).big,
    decreases cs.len() - i,
{
    if i < 0 || i >= cs.len() {
    } else {
        let c = cs[i];
        let len = cs.len();
        if c == '#' {
        } else if is_ascii_ws(c) {
            lemma_scan_big(st, cs, i + 1);
        } else if (c == 'f' || c == 'F') && i + 1 < len && (cs[i + 1] == '\'' || cs[i + 1] == '"') {
            let (j, val) = str_scan(cs, cs[i + 1], i + 2, Seq::empty());
            if j < len {
                lemma_str_scan_moves(cs, cs[i + 1], i + 2, Seq::empty());
                lemma_scan_big(push_tok(st, Kind::FString(val), st.line, i + 1), cs, j + 1);
            }
        } else if is_ascii_alpha(c) || c == '_' {
            let j = ident_end(cs, i);
            lemma_ident_end(cs, i);
            lemma_scan_big(push_tok(st, keyword(cs.subrange(i, j)), st.line, i + 1), cs, j);
        } else if is_ascii_digit(c) {
            let j = digits_end(cs, i);
            lemma_digits_end(cs, i);
            lemma_digits_end(cs, j + 1);
            if j < len && cs[j] == '.' {
                let k = digits_end(cs, j + 1);
                lemma_scan_big(push_tok(st, Kind::Float(cs.subrange(i, k)), st.line, i + 1), cs, k);
            } else {
                lemma_scan_big(push_tok(st, Kind::Int(digits_value(cs.subrange(i, j))), st.line, i + 1), cs, j);
            }
        } else if c == '\'' || c == '"' {
            if i + 2 < len && cs[i + 1] == c && cs[i + 2] == c {
                let (j, closed, text) = tq_open_scan(cs, c, i + 3, Seq::<char>::empty());
                if closed {
                    lemma_tq_open_scan_moves(cs, c, i + 3, Seq::<char>::empty());
                    let st1 = LexState { tq: None, tq_line: st.line, tq_text: Seq::empty(), ..st };
                    lemma_scan_big(push_tok(st1, Kind::Str(text), st.line, i + 1), cs, j);
                }
            } else {
                let (j, val) = str_scan(cs, c, i + 1, Seq::empty());
                if j < len {
                    lemma_str_scan_moves(cs, c, i + 1, Seq::empty());
                    lemma_scan_big(push_tok(st, Kind::Str(val), st.line, i + 1), cs, j + 1);
                }
            }
        } else if c == '@' && i + 1 < len && (is_ascii_alpha(cs[i + 1]) || cs[i + 1] == '_') {
            lemma_scan_big(push_tok(st, Kind::At, st.line, i + 1), cs, i + 1);
        } else if i + 1 < len && two_char_op(c, cs[i + 1]) is Some {
            lemma_scan_big(push_tok(st, two_char_op(c, cs[i + 1])->0, st.line, i + 1), cs, i + 2);
        } else {
            match one_char_op(c) {
                Some((k, d)) => lemma_scan_big(push_tok(LexState { paren: st.paren + d, ..st }, k, st.line, i + 1), cs, i + 1),
                None => {},
            }
        }
    }
}

/// The characters `cs[i..j]`.
fn sub_chars(cs: &Vec<char>, i: usize, j: usize) -> (r: Vec<char>)
    requires
        i <= j <= cs.len(),
    ensures
        r@ == cs@.subrange(i as int, j as int),
{
    let mut r: Vec<char> = Vec::new();
    let mut k = i;
    while k < j
        invariant
            i <= k <= j <= cs.len(),
            r@ == cs@.subrange(i as int, k as int),
        decreases j - k,
    {
        r.push(cs[k]);
        k = k + 1;
        assert(r@ =~= cs@.subrange(i as int, k as int));
    }
    r
}

fn two_char_token(a: char, b: char) -> (r: Option<TokenKind>)
    ensures
        r is Some == two_char_op(a, b) is Some,
        r is Some ==> r->0@ == two_char_op(a, b)->0,
{
    if a == '=' && b == '=' { Some(TokenKind::Eqeq) }
    else if a == '!' && b == '=' { Some(TokenKind::Ne) }
    else if a == '<' && b == '=' { Some(TokenKind::Le) }
    else if a == '>' && b == '=' { Some(TokenKind::Ge) }
    else if a == '+' && b == '=' { Some(TokenKind::PlusEq) }
    else if a == '-' && b == '=' { Some(TokenKind::MinusEq) }
    else if a == '-' && b == '>' { Some(TokenKind::Rarrow) }
    else { None }
}

fn one_char_token(c: char) -> (r: Option<(TokenKind, i64)>)
    ensures
        match r {
            Some((k, d)) => one_char_op(c) == Some((k@, d as int)),
            None => one_char_op(c) is None,
        },
{
    if c == '(' { Some((TokenKind::Lparen, 1)) }
    else if c == ')' { Some((TokenKind::Rparen, -1)) }
    else if c == '[' { Some((TokenKind::Lbracket, 1)) }
    else if c == ']' { Some((TokenKind::Rbracket, -1)) }
    else if c == '{' { Some((TokenKind::Lbrace, 1)) }
    else if c == '}' { Some((TokenKind::Rbrace, -1)) }
    else if c == ',' { Some((TokenKind::Comma, 0)) }
    else if c == ':' { Some((TokenKind::Colon, 0)) }
    else if c == '.' { Some((TokenKind::Dot, 0)) }
    else if c == '+' { Some((TokenKind::Plus, 0)) }
    else if c == '-' { Some((TokenKind::Minus, 0)) }
    else if c == '*' { Some((TokenKind::Star, 0)) }
    else if c == '/' { Some((TokenKind::Slash, 0)) }
    else if c == '%' { Some((TokenKind::Percent, 0)) }
    else if c == '=' { Some((TokenKind::Equal, 0)) }
    else if c == '<' { Some((TokenKind::Lt, 0)) }
    else if c == '>' { Some((TokenKind::Gt, 0)) }
    else { None }
}

/// A message: fixed text followed by a line number.
fn msg_line(prefix: &str, line: usize) -> (m: String)
    ensures
        m@ == prefix@ + dec(line as nat),
{
    let mut m = prefix.to_owned();
    push_dec(&mut m, line);
    m
}

fn msg_unexpected_char(c: char, line: usize) -> (m: String)
    ensures
        m@ == msg_unexpected(c, line as int),
{
    let mut m = "unexpected '".to_owned();
    push_char(&mut m, c);
    m.append("' line ");
    push_dec(&mut m, line);
    m
}

/// Whether a scan result and an executed scan agree: the same final state,
/// or the same error message.
pub open spec fn agrees(spec_r: Result<LexState, LexErr>, st: LexState, r: Result<(), String>) -> bool {
    match r {
        Ok(_) => spec_r == Ok::<LexState, LexErr>(st),
        Err(e) => match spec_r {
            Err(le) => le.msg == e@ && !le.st.big,
            Ok(_) => false,
        },
    }
}

/// The tokenizer's state between lines.
struct Lexer {
    toks: Vec<Token>,
    indents: Vec<usize>,
    line: usize,
    paren: i64,
    tq: Option<char>,
    tq_line: usize,
    tq_text: Vec<char>,
    /// Set when an integer literal too large for `i64` has been read.
    too_large: bool,
}

impl Lexer {
    spec fn st(&self) -> LexState {
        LexState {
            toks: toks_view(self.toks@),
            indents: self.indents@.map_values(|x: usize| x as int),
            line: self.line as int,
            paren: self.paren as int,
            tq: self.tq,
            tq_line: self.tq_line as int,
            tq_text: self.tq_text@,
            big: false,
        }
    }

    fn push(&mut self, kind: TokenKind, line: usize, col: usize)
        ensures
            final(self).st() == push_tok(old(self).st(), kind@, line as int, col as int),
            final(self).too_large == old(self).too_large,
    {
        let ghost k = kind@;
        self.toks.push(Token { kind, line, col });
        proof {
            assert(toks_view(self.toks@) =~= toks_view(old(self).toks@).push(Tok { kind: k, line: line as int, col: col as int }));
        }
    }

    /// Tokenizes `cs[i0..]`; see `scan`.
    fn scan(&mut self, cs: &Vec<char>, i0: usize) -> (r: Result<(), String>)
        requires
            i0 <= cs.len(),
            cs.len() < 0x2000_0000,
            old(self).line < 0x4000_0000,
            -0x4000_0000 < old(self).paren - cs.len(),
            old(self).paren + cs.len() < 0x4000_0000,
            !old(self).too_large,
        ensures
            !final(self).too_large ==> agrees(scan(old(self).st(), cs@, i0 as int), final(self).st(), r),
            final(self).too_large ==> r is Err && end_state(scan(old(self).st(), cs@, i0 as int)).big,
            final(self).line <= old(self).line + 1,
            old(self).paren - (cs.len() - i0) <= final(self).paren <= old(self).paren + (cs.len() - i0),
    {
        let mut i = i0;
        loop
            invariant
                i0 <= i <= cs.len(),
                cs.len() < 0x2000_0000,
                self.line == old(self).line,
                old(self).line < 0x4000_0000,
                old(self).paren - (i - i0) <= self.paren <= old(self).paren + (i - i0),
                -0x4000_0000 < old(self).paren - cs.len(),
                old(self).paren + cs.len() < 0x4000_0000,
                scan(self.st(), cs@, i as int) == scan(old(self).st(), cs@, i0 as int),
                !self.too_large,
            decreases cs.len() - i,
        {
            if i >= cs.len() {
                return Ok(());
            }
            let c = cs[i];
            let len = cs.len();
            if c == '#' {
                return Ok(());
            }
            if ascii_ws(c) {
                i = i + 1;
                continue;
            }
            if (c == 'f' || c == 'F') && len - i > 1 && (cs[i + 1] == '\'' || cs[i + 1] == '"') {
                let (j, val) = scan_quoted(cs, cs[i + 1], i + 2);
                if j >= len {
                    return Err(msg_line("unterminated f-string line ", self.line));
                }
                proof { lemma_str_scan_moves(cs@, cs@[i + 1], i + 2, Seq::empty()); }
                let line = self.line;
                self.push(TokenKind::FString(string_of(val.as_slice())), line, i + 1);
                i = j + 1;
                continue;
            }
            if ascii_alpha(c) || c == '_' {
                let j = scan_ident_end(cs, i);
                proof { lemma_ident_end(cs@, i as int); }
                let w = sub_chars(cs, i, j);
                let line = self.line;
                self.push(keyword_kind(&w), line, i + 1);
                i = j;
                continue;
            }
            if ascii_digit(c) {
                let j = scan_digits_end(cs, i);
                proof { lemma_digits_end(cs@, i as int); }
                if j < len && cs[j] == '.' {
                    let k = scan_digits_end(cs, j + 1);
                    proof { lemma_digits_end(cs@, j + 1); }
                    let text = sub_chars(cs, i, k);
                    let line = self.line;
                    self.push(TokenKind::Float(string_of(text.as_slice())), line, i + 1);
                    i = k;
                    continue;
                }
                let v = match digits_to_i64(cs, i, j) {
                    Some(v) => v,
                    None => {
                        proof {
                            let dv = digits_value(cs@.subrange(i as int, j as int));
                            lemma_scan_big(push_tok(self.st(), Kind::Int(dv), self.line as int, i + 1), cs@, j as int);
                        }
                        self.too_large = true;
                        return Err(msg_line("integer literal too large at line ", self.line));
                    },
                };
                let line = self.line;
                self.push(TokenKind::Int(v), line, i + 1);
                i = j;
                continue;
            }
            if c == '\'' || c == '"' {
                if len - i > 2 && cs[i + 1] == c && cs[i + 2] == c {
                    let (j, closed, text) = scan_triple_open(cs, c, i + 3);
                    if closed {
                        proof { lemma_tq_open_scan_moves(cs@, c, i + 3, Seq::<char>::empty()); }
                        self.tq = None;
                        self.tq_line = self.line;
                        self.tq_text = Vec::new();
                        let line = self.line;
                        self.push(TokenKind::String(string_of(text.as_slice())), line, i + 1);
                        i = j;
                        continue;
                    } else {
                        self.tq = Some(c);
                        self.tq_line = self.line;
                        self.tq_text = text;
                        self.line = self.line + 1;
                        return Ok(());
                    }
                } else {
                    let (j, val) = scan_quoted(cs, c, i + 1);
                    if j >= len {
                        return Err(msg_line("unterminated string line ", self.line));
                    }
                    proof { lemma_str_scan_moves(cs@, c, i + 1, Seq::empty()); }
                    let line = self.line;
                    self.push(TokenKind::String(string_of(val.as_slice())), line, i + 1);
                    i = j + 1;
                    continue;
                }
            }
            if c == '@' && len - i > 1 && (ascii_alpha(cs[i + 1]) || cs[i + 1] == '_') {
                let line = self.line;
                self.push(TokenKind::At, line, i + 1);
                i = i + 1;
                continue;
            }
            if len - i > 1 {
                let two = two_char_token(c, cs[i + 1]);
                if let Some(k) = two {
                    let line = self.line;
                    self.push(k, line, i + 1);
                    i = i + 2;
                    continue;
                }
            }
            match one_char_token(c) {
                Some((k, d)) => {
                    self.paren = self.paren + d;
                    let line = self.line;
                    self.push(k, line, i + 1);
                    i = i + 1;
                },
                None => {
                    return Err(msg_unexpected_char(c, self.line));
                },
            }
        }
    }
}


impl Lexer {
    fn indents_push(&mut self, x: usize)
        ensures
            final(self).st() == (LexState { indents: old(self).st().indents.push(x as int), ..old(self).st() }),
            final(self).too_large == old(self).too_large,
    {
        self.indents.push(x);
        proof {
            assert(self.indents@.map_values(|x: usize| x as int) =~= old(self).indents@.map_values(|x: usize| x as int).push(x as int));
        }
    }

    fn indents_pop(&mut self)
        requires
            old(self).indents.len() > 0,
        ensures
            final(self).st() == (LexState { indents: old(self).st().indents.drop_last(), ..old(self).st() }),
            final(self).too_large == old(self).too_large,
    {
        self.indents.pop();
        proof {
            assert(self.indents@.map_values(|x: usize| x as int) =~= old(self).indents@.map_values(|x: usize| x as int).drop_last());
        }
    }

    /// Compares a line's indentation with the open levels; see `do_indent`.
    fn do_indent(&mut self, indent: usize) -> (r: Result<(), String>)
        ensures
            agrees(do_indent(old(self).st(), indent as int), final(self).st(), r),
            final(self).line == old(self).line,
            final(self).paren == old(self).paren,
            final(self).too_large == old(self).too_large,
    {
        let n = self.indents.len();
        if n > 0 && indent > self.indents[n - 1] {
            self.indents_push(indent);
            let line = self.line;
            self.push(TokenKind::Indent, line, 1);
            return Ok(());
        }
        let ghost st0 = self.st();
        while self.indents.len() > 0 && indent < self.indents[self.indents.len() - 1]
            invariant
                dedent_to(self.st(), indent as int) == dedent_to(st0, indent as int),
                self.line == old(self).line,
                self.paren == old(self).paren,
                self.too_large == old(self).too_large,
            decreases self.indents.len(),
        {
            let line = self.line;
            self.indents_pop();
            self.push(TokenKind::Dedent, line, 1);
        }
        let m = self.indents.len();
        if m == 0 || indent != self.indents[m - 1] {
            return Err(msg_line("inconsistent indent at line ", self.line));
        }
        Ok(())
    }

    /// A line whose content starts at `col`; see `lex_body`.
    fn lex_body(&mut self, cs: &Vec<char>, col: usize, indent: usize) -> (r: Result<(), String>)
        requires
            col <= cs.len(),
            cs.len() < 0x2000_0000,
            old(self).line < 0x4000_0000,
            -0x4000_0000 < old(self).paren - cs.len(),
            old(self).paren + cs.len() < 0x4000_0000,
            !old(self).too_large,
        ensures
            !final(self).too_large ==> agrees(lex_body(old(self).st(), cs@, col as int, indent as int), final(self).st(), r),
            final(self).too_large ==> r is Err && end_state(lex_body(old(self).st(), cs@, col as int, indent as int)).big,
            final(self).line <= old(self).line + 2,
            old(self).paren - cs.len() <= final(self).paren <= old(self).paren + cs.len(),
    {
        if col >= cs.len() || cs[col] == '#' {
            self.line = self.line + 1;
            return Ok(());
        }
        if self.paren == 0 {
            let r = self.do_indent(indent);
            if r.is_err() {
                return r;
            }
        }
        let r = self.scan(cs, col);
        if r.is_err() {
            return r;
        }
        if self.paren == 0 {
            let line = self.line;
            self.push(TokenKind::Newline, line, cs.len() + 1);
        }
        self.line = self.line + 1;
        Ok(())
    }

    /// Tokenizes one line; see `lex_line`.
    fn lex_line(&mut self, cs: &Vec<char>) -> (r: Result<(), String>)
        requires
            cs.len() < 0x2000_0000,
            old(self).line < 0x4000_0000 - 2,
            -0x4000_0000 < old(self).paren - cs.len(),
            old(self).paren + cs.len() < 0x4000_0000,
            !old(self).too_large,
        ensures
            !final(self).too_large ==> agrees(lex_line(old(self).st(), cs@), final(self).st(), r),
            final(self).too_large ==> r is Err && end_state(lex_line(old(self).st(), cs@)).big,
            final(self).line <= old(self).line + 2,
            old(self).paren - cs.len() <= final(self).paren <= old(self).paren + cs.len(),
    {
        match self.tq {
            Some(q) => {
                let (i, closed) = scan_triple_rest(cs, q, &mut self.tq_text);
                if !closed {
                    self.line = self.line + 1;
                    return Ok(());
                }
                let text = string_of(self.tq_text.as_slice());
                self.tq = None;
                self.tq_text = Vec::new();
                let tq_line = self.tq_line;
                self.push(TokenKind::String(text), tq_line, 1);
                if i >= cs.len() {
                    self.line = self.line + 1;
                    return Ok(());
                }
                self.lex_body(cs, 0, 0)
            },
            None => {
                let (col, indent) = scan_blanks(cs);
                self.lex_body(cs, col, indent)
            },
        }
    }
}

/// Splits a text into its lines; see `lines`.
fn split_lines(cs: &Vec<char>) -> (r: Vec<Vec<char>>)
    ensures
        r@.map_values(|l: Vec<char>| l@) == lines(cs@),
{
    let mut done: Vec<Vec<char>> = Vec::new();
    let mut cur: Vec<char> = Vec::new();
    let mut i: usize = 0;
    while i < cs.len()
        invariant
            i <= cs.len(),
            (done@.map_values(|l: Vec<char>| l@), cur@) == line_split(cs@.subrange(0, i as int)),
        decreases cs.len() - i,
    {
        let c = cs[i];
        proof {
            assert(cs@.subrange(0, i + 1).drop_last() =~= cs@.subrange(0, i as int));
        }
        if c == '\n' {
            let n = cur.len();
            if n > 0 && cur[n - 1] == '\r' {
                cur.pop();
            }
            let ghost d0 = done@;
            let line = cur;
            let ghost lv = line@;
            done.push(line);
            cur = Vec::new();
            proof {
                assert(done@.map_values(|l: Vec<char>| l@) =~= d0.map_values(|l: Vec<char>| l@).push(lv));
            }
        } else {
            cur.push(c);
        }
        i = i + 1;
    }
    proof {
        assert(cs@.subrange(0, cs.len() as int) =~= cs@);
    }
    if cur.len() > 0 {
        let ghost d0 = done@;
        let ghost cv = cur@;
        done.push(cur);
        proof {
            assert(done@.map_values(|l: Vec<char>| l@) =~= d0.map_values(|l: Vec<char>| l@).push(cv));
        }
    }
    done
}


proof fn lemma_dedent_big(st: LexState, indent: int)
    ensures
        st.big ==> dedent_to(st, indent).big,
    decreases st.indents.len(),
{
    if st.indents.len() > 0 && indent < st.indents.last() {
        lemma_dedent_big(push_tok(LexState { indents: st.indents.drop_last(), ..st }, Kind::Dedent, st.line, 1), indent);
    }
}

proof fn lemma_lex_line_big(st: LexState, cs: Seq<char>)
    ensures
        st.big ==> end_state(lex_line(st, cs)).big,
{
    match st.tq {
        Some(q) => {
            let (i, closed, text) = tq_scan(cs, q, 0, false, st.tq_text);
            if closed {
                let st2 = push_tok(LexState { tq: None, tq_text: Seq::empty(), ..st }, Kind::Str(text), st.tq_line, 1);
                lemma_dedent_big(st2, 0);
                if st2.paren == 0 {
                    match do_indent(st2, 0) {
                        Ok(st3) => lemma_scan_big(st3, cs, 0),
                        Err(_) => {},
                    }
                } else {
                    lemma_scan_big(st2, cs, 0);
                }
            }
        },
        None => {
            let col = blank_end(cs, 0);
            let indent = indent_width(cs, 0, col);
            lemma_dedent_big(st, indent);
            if st.paren == 0 {
                match do_indent(st, indent) {
                    Ok(st2) => lemma_scan_big(st2, cs, col),
                    Err(_) => {},
                }
            } else {
                lemma_scan_big(st, cs, col);
            }
        },
    }
}

proof fn lemma_lex_lines_big(st: LexState, ls: Seq<Seq<char>>)
    ensures
        st.big ==> end_state(lex_lines(st, ls)).big,
    decreases ls.len(),
{
    if ls.len() > 0 {
        lemma_lex_line_big(st, ls[0]);
        match lex_line(st, ls[0]) {
            Ok(st2) => lemma_lex_lines_big(st2, ls.drop_first()),
            Err(_) => {},
        }
    }
}

/// The total number of characters in a list of lines.
pub open spec fn total_len(ls: Seq<Seq<char>>) -> int
    decreases ls.len(),
{
    if ls.len() == 0 {
        0
    } else {
        total_len(ls.drop_last()) + ls.last().len()
    }
}

proof fn lemma_line_split_size(s: Seq<char>)
    ensures
        total_len(line_split(s).0) + line_split(s).0.len() + line_split(s).1.len() <= s.len(),
    decreases s.len(),
{
    if s.len() > 0 {
        lemma_line_split_size(s.drop_last());
        let (d, c) = line_split(s.drop_last());
        if s.last() == '\n' {
            assert(d.push(strip_cr(c)).drop_last() =~= d);
        }
    }
}

proof fn lemma_lines_size(s: Seq<char>)
    ensures
        total_len(lines(s)) + lines(s).len() <= s.len() + 1,
        lines(s).len() <= s.len(),
{
    lemma_line_split_size(s);
    let (d, c) = line_split(s);
    lemma_total_nonneg(d);
    if c.len() > 0 {
        assert(d.push(c).drop_last() =~= d);
    }
}

proof fn lemma_total_prefix(ls: Seq<Seq<char>>, k: int)
    requires
        0 <= k <= ls.len(),
    ensures
        total_len(ls.subrange(0, k)) <= total_len(ls),
        total_len(ls.subrange(0, k)) >= 0,
        k < ls.len() ==> total_len(ls.subrange(0, k + 1)) == total_len(ls.subrange(0, k)) + ls[k].len(),
    decreases ls.len(),
{
    if k < ls.len() {
        assert(ls.subrange(0, k + 1).drop_last() =~= ls.subrange(0, k));
    }
    if k == ls.len() {
        assert(ls.subrange(0, k) =~= ls);
        lemma_total_nonneg(ls);
    } else {
        lemma_total_prefix(ls.drop_last(), k);
        assert(ls.drop_last().subrange(0, k) =~= ls.subrange(0, k));
    }
}

proof fn lemma_total_nonneg(ls: Seq<Seq<char>>)
    ensures
        total_len(ls) >= 0,
    decreases ls.len(),
{
    if ls.len() > 0 {
        lemma_total_nonneg(ls.drop_last());
    }
}

proof fn lemma_line_len(ls: Seq<Seq<char>>, k: int)
    requires
        0 <= k < ls.len(),
    ensures
        ls[k].len() <= total_len(ls),
{
    lemma_total_prefix(ls, k);
    lemma_total_prefix(ls, k + 1);
}

/// Tokenizes a source text; `None` when it holds an integer literal too
/// large for `i64`, which no token can carry.
///
/// Lines are read as `str::lines` splits them. Each line's leading blanks
/// give its indentation (a tab counts four); a deeper line opens a level with
/// an `Indent` token and a shallower one closes levels with `Dedent` tokens,
/// and it is an error when it matches no open level. Inside brackets lines
/// are joined: no indentation is checked and no `Newline` is emitted. At the
/// end every open level is closed and an `Eof` token ends the stream.
///
/// The source must hold fewer than 2^29 characters. A tab counts four
/// columns, so an indentation can reach four times a line's length (below
/// 2^31), and line numbers reach twice the number of lines (below 2^30):
/// every width, line number and bracket depth then fits a 32-bit counter,
/// which is what `usize` may be.
pub fn lex_checked(source: &str) -> (r: Option<Result<Vec<Token>, String>>)
    requires
        source@.len() < 0x2000_0000,
    ensures
        match r {
            None => lex_overflows(source@),
            Some(Ok(toks)) => !lex_overflows(source@)
                && spec_lex(source@) == Ok::<Seq<Tok>, Seq<char>>(toks_view(toks@))
                && toks@.len() > 0 && toks@.last().kind@ is Eof,
            Some(Err(e)) => !lex_overflows(source@) && spec_lex(source@) == Err::<Seq<Tok>, Seq<char>>(e@),
        },
{
    let cs = chars_of(source);
    let ls = split_lines(&cs);
    let ghost lsv = ls@.map_values(|l: Vec<char>| l@);
    proof {
        lemma_lines_size(cs@);
    }
    let mut indents: Vec<usize> = Vec::new();
    indents.push(0);
    let mut lx = Lexer {
        toks: Vec::new(),
        indents,
        line: 1,
        paren: 0,
        tq: None,
        tq_line: 0,
        tq_text: Vec::new(),
        too_large: false,
    };
    proof {
        assert(lx.st().indents =~= seq![0int]);
        assert(lx.st().toks =~= Seq::<Tok>::empty());
        assert(lx.st() == init_state());
        assert(lsv.subrange(0, lsv.len() as int) =~= lsv);
    }
    let n = ls.len();
    let mut k: usize = 0;
    while k < n
        invariant
            n == ls.len(),
            lsv == ls@.map_values(|l: Vec<char>| l@),
            lsv == lines(cs@),
            cs@ == source@,
            cs.len() < 0x2000_0000,
            total_len(lsv) + lsv.len() <= cs.len() + 1,
            lsv.len() <= cs.len(),
            k <= n,
            lx.line <= 1 + 2 * k,
            -total_len(lsv.subrange(0, k as int)) <= lx.paren <= total_len(lsv.subrange(0, k as int)),
            lex_lines(lx.st(), lsv.subrange(k as int, n as int)) == lex_lines(init_state(), lsv),
            !lx.too_large,
        decreases n - k,
    {
        let ghost stk = lx.st();
        proof {
            lemma_total_prefix(lsv, k as int);
            lemma_line_len(lsv, k as int);
            let rest = lsv.subrange(k as int, n as int);
            assert(rest[0] == lsv[k as int]);
            assert(rest.drop_first() =~= lsv.subrange(k + 1, n as int));
        }
        let r = lx.lex_line(&ls[k]);
        if lx.too_large {
            proof {
                let rest = lsv.subrange(k as int, n as int);
                match lex_line(stk, lsv[k as int]) {
                    Ok(st2) => lemma_lex_lines_big(st2, rest.drop_first()),
                    Err(_) => {},
                }
            }
            return None;
        }
        if r.is_err() {
            match r {
                Err(e) => {
                    return Some(Err(e));
                },
                Ok(_) => {},
            }
        }
        k = k + 1;
    }
    let ghost st_end = lx.st();
    proof {
        assert(lsv.subrange(n as int, n as int) =~= Seq::<Seq<char>>::empty());
    }
    while lx.indents.len() > 1
        invariant
            close_levels(lx.st()) == close_levels(st_end),
            lx.line == st_end.line,
        decreases lx.indents.len(),
    {
        let line = lx.line;
        lx.indents_pop();
        lx.push(TokenKind::Dedent, line, 1);
    }
    let line = lx.line;
    lx.push(TokenKind::Eof, line, 1);
    proof {
        law_tokens_end_and_balance(source@);
        assert(toks_view(lx.toks@).len() == lx.toks@.len());
        assert(toks_view(lx.toks@)[lx.toks@.len() - 1] == lx.toks@[lx.toks@.len() - 1]@);
    }
    Some(Ok(lx.toks))
}

/// Tokenizes a source text whose integer literals all fit in `i64`; see
/// [`lex_checked`].
pub fn lex_source(source: &str) -> (r: Result<Vec<Token>, String>)
    requires
        source@.len() < 0x2000_0000,
        !lex_overflows(source@),
    ensures
        match r {
            Ok(toks) => spec_lex(source@) == Ok::<Seq<Tok>, Seq<char>>(toks_view(toks@))
                && toks@.len() > 0 && toks@.last().kind@ is Eof,
            Err(e) => spec_lex(source@) == Err::<Seq<Tok>, Seq<char>>(e@),
        },
{
    match lex_checked(source) {
        Some(r) => r,
        None => Err(String::new()),
    }
}


// ----------------------------------------------------------------------
// Token tags: the variant of a token kind, without its payload
// ----------------------------------------------------------------------

/// The variant of a token kind, without its payload.
#[derive(Debug, Clone, Copy, PartialEq, Eq, Structural)]
pub enum Tag {
    Eof,
    Newline,
    Indent,
    Dedent,
    Name,
    Int,
    Float,
    Str,
    FString,
    Def,
    Class,
    If,
    Elif,
    Else,
    While,
    For,
    In,
    Return,
    Break,
    Continue,
    Pass,
    Try,
    Except,
    Raise,
    As,
    And,
    Or,
    Not,
    NoneVal,
    TrueVal,
    FalseVal,
    Lambda,
    Import,
    From,
    Lparen,
    Rparen,
    Lbracket,
    Rbracket,
    Lbrace,
    Rbrace,
    Comma,
    Colon,
    Dot,
    Plus,
    Minus,
    Star,
    Slash,
    Percent,
    Equal,
    PlusEq,
    MinusEq,
    Eqeq,
    Ne,
    Lt,
    Le,
    Gt,
    Ge,
    Rarrow,
    /// `@`, starting a decorator.
    At,
    Yield,
}

/// The tag of a token kind.
pub open spec fn tag(k: Kind) -> Tag {
    match k {
        Kind::Eof => Tag::Eof,
        Kind::Newline => Tag::Newline,
        Kind::Indent => Tag::Indent,
        Kind::Dedent => Tag::Dedent,
        Kind::Name(_) => Tag::Name,
        Kind::Int(_) => Tag::Int,
        Kind::Float(_) => Tag::Float,
        Kind::Str(_) => Tag::Str,
        Kind::FString(_) => Tag::FString,
        Kind::Def => Tag::Def,
        Kind::Class => Tag::Class,
        Kind::If => Tag::If,
        Kind::Elif => Tag::Elif,
        Kind::Else => Tag::Else,
        Kind::While => Tag::While,
        Kind::For => Tag::For,
        Kind::In => Tag::In,
        Kind::Return => Tag::Return,
        Kind::Break => Tag::Break,
        Kind::Continue => Tag::Continue,
        Kind::Pass => Tag::Pass,
        Kind::Try => Tag::Try,
        Kind::Except => Tag::Except,
        Kind::Raise => Tag::Raise,
        Kind::As => Tag::As,
        Kind::And => Tag::And,
        Kind::Or => Tag::Or,
        Kind::Not => Tag::Not,
        Kind::NoneVal => Tag::NoneVal,
        Kind::TrueVal => Tag::TrueVal,
        Kind::FalseVal => Tag::FalseVal,
        Kind::Lambda => Tag::Lambda,
        Kind::Import => Tag::Import,
        Kind::From => Tag::From,
        Kind::Lparen => Tag::Lparen,
        Kind::Rparen => Tag::Rparen,
        Kind::Lbracket => Tag::Lbracket,
        Kind::Rbracket => Tag::Rbracket,
        Kind::Lbrace => Tag::Lbrace,
        Kind::Rbrace => Tag::Rbrace,
        Kind::Comma => Tag::Comma,
        Kind::Colon => Tag::Colon,
        Kind::Dot => Tag::Dot,
        Kind::Plus => Tag::Plus,
        Kind::Minus => Tag::Minus,
        Kind::Star => Tag::Star,
        Kind::Slash => Tag::Slash,
        Kind::Percent => Tag::Percent,
        Kind::Equal => Tag::Equal,
        Kind::PlusEq => Tag::PlusEq,
        Kind::MinusEq => Tag::MinusEq,
        Kind::Eqeq => Tag::Eqeq,
        Kind::Ne => Tag::Ne,
        Kind::Lt => Tag::Lt,
        Kind::Le => Tag::Le,
        Kind::Gt => Tag::Gt,
        Kind::Ge => Tag::Ge,
        Kind::Rarrow => Tag::Rarrow,
        Kind::At => Tag::At,
        Kind::Yield => Tag::Yield,
    }
}

impl TokenKind {
    /// The tag of this kind.
    pub fn tag(&self) -> (t: Tag)
        ensures
            t == tag(self@),
    {
        match self {
            TokenKind::Eof => Tag::Eof,
            TokenKind::Newline => Tag::Newline,
            TokenKind::Indent => Tag::Indent,
            TokenKind::Dedent => Tag::Dedent,
            TokenKind::Name(_) => Tag::Name,
            TokenKind::Int(_) => Tag::Int,
            TokenKind::Float(_) => Tag::Float,
            TokenKind::String(_) => Tag::Str,
            TokenKind::FString(_) => Tag::FString,
            TokenKind::Def => Tag::Def,
            TokenKind::Class => Tag::Class,
            TokenKind::If => Tag::If,
            TokenKind::Elif => Tag::Elif,
            TokenKind::Else => Tag::Else,
            TokenKind::While => Tag::While,
            TokenKind::For => Tag::For,
            TokenKind::In => Tag::In,
            TokenKind::Return => Tag::Return,
            TokenKind::Break => Tag::Break,
            TokenKind::Continue => Tag::Continue,
            TokenKind::Pass => Tag::Pass,
            TokenKind::Try => Tag::Try,
            TokenKind::Except => Tag::Except,
            TokenKind::Raise => Tag::Raise,
            TokenKind::As => Tag::As,
            TokenKind::And => Tag::And,
            TokenKind::Or => Tag::Or,
            TokenKind::Not => Tag::Not,
            TokenKind::NoneVal => Tag::NoneVal,
            TokenKind::TrueVal => Tag::TrueVal,
            TokenKind::FalseVal => Tag::FalseVal,
            TokenKind::Lambda => Tag::Lambda,
            TokenKind::Import => Tag::Import,
            TokenKind::From => Tag::From,
            TokenKind::Lparen => Tag::Lparen,
            TokenKind::Rparen => Tag::Rparen,
            TokenKind::Lbracket => Tag::Lbracket,
            TokenKind::Rbracket => Tag::Rbracket,
            TokenKind::Lbrace => Tag::Lbrace,
            TokenKind::Rbrace => Tag::Rbrace,
            TokenKind::Comma => Tag::Comma,
            TokenKind::Colon => Tag::Colon,
            TokenKind::Dot => Tag::Dot,
            TokenKind::Plus => Tag::Plus,
            TokenKind::Minus => Tag::Minus,
            TokenKind::Star => Tag::Star,
            TokenKind::Slash => Tag::Slash,
            TokenKind::Percent => Tag::Percent,
            TokenKind::Equal => Tag::Equal,
            TokenKind::PlusEq => Tag::PlusEq,
            TokenKind::MinusEq => Tag::MinusEq,
            TokenKind::Eqeq => Tag::Eqeq,
            TokenKind::Ne => Tag::Ne,
            TokenKind::Lt => Tag::Lt,
            TokenKind::Le => Tag::Le,
            TokenKind::Gt => Tag::Gt,
            TokenKind::Ge => Tag::Ge,
            TokenKind::Rarrow => Tag::Rarrow,
            TokenKind::At => Tag::At,
            TokenKind::Yield => Tag::Yield,
        }
    }
}
} // verus!
