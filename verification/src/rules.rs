//! Decisions of the evaluator that take no evaluation: which `except` clause
//! takes an exception, which module a relative import names, how an f-string
//! splits into text and code, what the words of a JSON text stand for, what
//! `range(n)` holds.
use vstd::prelude::*;
use crate::value::{PyValue, SVal, vals_view, lemma_vals_push, exc_sv};
use crate::call::{strs, contains_str};
use crate::lexer::{Token, TokenKind, Kind, Tok, toks_view};
use crate::ast::Stmt;
use crate::text::{push_char, chars_of};

verus! {

// ----------------------------------------------------------------------
// except clauses
// ----------------------------------------------------------------------

/// Whether an `except` clause naming `types` takes `exc`: a bare `except`
/// takes anything; otherwise the exception must be named, or `Exception`.
pub open spec fn catches(types: Seq<Seq<char>>, exc: SVal) -> bool {
    types.len() == 0 || (exc matches SVal::Exception(t, _) && (types.contains("Exception"@) || types.contains(t)))
}

/// Whether an `except` clause naming `types` takes `exc`.
pub fn handler_catches(types: &Vec<String>, exc: &PyValue) -> (r: bool)
    ensures
        r == catches(strs(types@), exc.sv()),
{
    if types.len() == 0 {
        return true;
    }
    match exc {
        PyValue::Exception(t, _) => {
            let any = "Exception".to_owned();
            contains_str(types, &any) || contains_str(types, t)
        },
        _ => false,
    }
}

/// The first of the `except` clauses of a `try` that takes `exc`.
pub fn select_handler(handlers: &Vec<(Vec<String>, Option<String>, Vec<Stmt>)>, exc: &PyValue) -> (r: Option<usize>)
    ensures
        match r {
            Some(i) => i < handlers.len() && catches(strs(handlers@[i as int].0@), exc.sv())
                && forall|j: int| 0 <= j < i ==> !catches(strs(#[trigger] handlers@[j].0@), exc.sv()),
            None => forall|j: int| 0 <= j < handlers.len() ==> !catches(strs(#[trigger] handlers@[j].0@), exc.sv()),
        },
{
    let mut i: usize = 0;
    while i < handlers.len()
        invariant
            i <= handlers.len(),
            forall|j: int| 0 <= j < i ==> !catches(strs(#[trigger] handlers@[j].0@), exc.sv()),
        decreases handlers.len() - i,
    {
        if handler_catches(&handlers[i].0, exc) {
            return Some(i);
        }
        i = i + 1;
    }
    None
}

// ----------------------------------------------------------------------
// Module names
// ----------------------------------------------------------------------

/// The number of dots in `s` from index `i` on.
pub open spec fn dots_from(s: Seq<char>, i: int) -> nat
    decreases s.len() - i,
{
    if i < 0 || i >= s.len() {
        0
    } else {
        (if s[i] == '.' { 1nat } else { 0nat }) + dots_from(s, i + 1)
    }
}

/// The first `keep` dot-separated parts of `s` from index `i` on, joined by dots.
pub open spec fn parts_from(s: Seq<char>, i: int, keep: nat) -> Seq<char>
    decreases s.len() - i,
{
    if keep == 0 || i < 0 || i >= s.len() {
        Seq::empty()
    } else if s[i] == '.' {
        if keep == 1 {
            Seq::empty()
        } else {
            seq!['.'] + parts_from(s, i + 1, (keep - 1) as nat)
        }
    } else {
        seq![s[i]] + parts_from(s, i + 1, keep)
    }
}

/// The full name a `from`-import of `name` with `level` leading dots refers
/// to, from inside package `pkg`; or the `ImportError` message.
pub open spec fn resolve_import(pkg: Option<Seq<char>>, name: Seq<char>, level: nat) -> Result<Seq<char>, Seq<char>> {
    if level == 0 {
        Ok(name)
    } else {
        match pkg {
            None => Err("relative import without a package"@),
            Some(p) => {
                let np = dots_from(p, 0) + 1;
                if level > np {
                    Err("attempted relative import with no parent package"@)
                } else {
                    let base = parts_from(p, 0, (np - level) as nat);
                    if name.len() == 0 {
                        Ok(base)
                    } else {
                        Ok(base + seq!['.'] + name)
                    }
                }
            },
        }
    }
}

fn count_dots(s: &Vec<char>) -> (n: usize)
    ensures
        n == dots_from(s@, 0),
{
    let mut n: usize = 0;
    let mut i: usize = s.len();
    while i > 0
        invariant
            i <= s.len(),
            n == dots_from(s@, i as int),
            n <= s.len() - i,
        decreases i,
    {
        i = i - 1;
        if s[i] == '.' {
            n = n + 1;
        }
    }
    n
}

fn first_parts(s: &Vec<char>, keep: usize) -> (r: String)
    ensures
        r@ == parts_from(s@, 0, keep as nat),
{
    let mut r = String::new();
    let mut k: usize = keep;
    let mut i: usize = 0;
    while i < s.len() && k > 0 && !(s[i] == '.' && k == 1)
        invariant
            i <= s.len(),
            k <= keep,
            r@ + parts_from(s@, i as int, k as nat) == parts_from(s@, 0, keep as nat),
        decreases s.len() - i,
    {
        let ghost r0 = r@;
        let ghost k0 = k;
        if s[i] == '.' {
            k = k - 1;
        }
        push_char(&mut r, s[i]);
        proof {
            assert(parts_from(s@, i as int, k0 as nat) == seq![s@[i as int]] + parts_from(s@, i + 1, k as nat));
            assert(r0 + (seq![s@[i as int]] + parts_from(s@, i + 1, k as nat)) =~= r@ + parts_from(s@, i + 1, k as nat));
        }
        i = i + 1;
    }
    proof {
        assert(parts_from(s@, i as int, k as nat) =~= Seq::empty());
        assert(r@ + Seq::<char>::empty() =~= r@);
    }
    r
}

/// A result of strings, by the characters of each.
pub open spec fn text_result(r: Result<String, String>) -> Result<Seq<char>, Seq<char>> {
    match r {
        Ok(s) => Ok(s@),
        Err(s) => Err(s@),
    }
}

/// The full name of the module a `from`-import refers to, or the
/// `ImportError` message.
pub fn resolve_import_name(pkg: &Option<String>, name: &String, level: usize) -> (r: Result<String, String>)
    ensures
        text_result(r) == resolve_import(crate::call::opt_str(*pkg), name@, level as nat),
{
    if level == 0 {
        return Ok(name.clone());
    }
    match pkg {
        None => Err("relative import without a package".to_owned()),
        Some(p) => {
            let cs = chars_of(p.as_str());
            let nd = count_dots(&cs);
            if level - 1 > nd {
                return Err("attempted relative import with no parent package".to_owned());
            }
            let mut base = first_parts(&cs, nd - (level - 1));
            if name.as_str().is_empty() {
                Ok(base)
            } else {
                let ghost b0 = base@;
                push_char(&mut base, '.');
                base.append(name.as_str());
                assert(base@ =~= b0 + seq!['.'] + name@);
                Ok(base)
            }
        },
    }
}

/// The part of `s` after its last dot (all of `s` when it has none).
pub open spec fn after_last_dot(s: Seq<char>) -> Seq<char>
    decreases s.len(),
{
    if s.len() == 0 {
        Seq::empty()
    } else if s.last() == '.' {
        Seq::empty()
    } else {
        after_last_dot(s.drop_last()).push(s.last())
    }
}

/// The part of `s` after its last dot: the name `import a.b.c` binds, and
/// the package a plain module file counts as.
pub fn last_component(s: &String) -> (r: String)
    ensures
        r@ == after_last_dot(s@),
{
    let cs = chars_of(s.as_str());
    let mut j: usize = cs.len();
    proof {
        assert(cs@.subrange(0, cs.len() as int) =~= cs@);
        assert(cs@.subrange(cs.len() as int, cs.len() as int) =~= Seq::<char>::empty());
        assert(after_last_dot(cs@) =~= after_last_dot(cs@) + Seq::<char>::empty());
    }
    while j > 0 && cs[j - 1] != '.'
        invariant
            j <= cs.len(),
            after_last_dot(cs@) == after_last_dot(cs@.subrange(0, j as int)) + cs@.subrange(j as int, cs.len() as int),
        decreases j,
    {
        proof {
            let t = cs@.subrange(0, j as int);
            assert(t.drop_last() =~= cs@.subrange(0, j - 1));
            assert(after_last_dot(t) == after_last_dot(t.drop_last()).push(cs@[j - 1]));
            assert(cs@.subrange(j - 1, cs.len() as int) =~= seq![cs@[j - 1]] + cs@.subrange(j as int, cs.len() as int));
            assert(after_last_dot(cs@.subrange(0, j - 1)).push(cs@[j - 1]) + cs@.subrange(j as int, cs.len() as int)
                =~= after_last_dot(cs@.subrange(0, j - 1)) + cs@.subrange(j - 1, cs.len() as int));
        }
        j = j - 1;
    }
    proof {
        let t = cs@.subrange(0, j as int);
        if j > 0 {
            assert(t.last() == '.');
        }
        assert(after_last_dot(t) =~= Seq::<char>::empty());
        assert(after_last_dot(cs@) =~= cs@.subrange(j as int, cs.len() as int));
    }
    let mut r = String::new();
    let mut i: usize = j;
    while i < cs.len()
        invariant
            j <= i <= cs.len(),
            r@ == cs@.subrange(j as int, i as int),
        decreases cs.len() - i,
    {
        push_char(&mut r, cs[i]);
        proof {
            assert(r@ =~= cs@.subrange(j as int, i + 1));
        }
        i = i + 1;
    }
    r
}

// ----------------------------------------------------------------------
// f-strings
// ----------------------------------------------------------------------

/// A piece of an f-string: literal text, or the source of an expression.
#[derive(Debug, PartialEq)]
pub enum FPart {
    Text(String),
    Code(String),
}

/// The mathematical form of a piece of an f-string.
pub enum SPart {
    Text(Seq<char>),
    Code(Seq<char>),
}

impl FPart {
    pub open spec fn sv(&self) -> SPart {
        match self {
            FPart::Text(s) => SPart::Text(s@),
            FPart::Code(s) => SPart::Code(s@),
        }
    }
}

pub open spec fn fparts_view(v: Seq<FPart>) -> Seq<SPart> {
    v.map_values(|p: FPart| p.sv())
}

/// The first index from `i` on holding `c` (the length when none does).
pub open spec fn find_from(s: Seq<char>, i: int, c: char) -> int
    decreases s.len() - i,
{
    if i >= s.len() {
        s.len() as int
    } else if s[i] == c {
        i
    } else {
        find_from(s, i + 1, c)
    }
}

pub proof fn lemma_find_from(s: Seq<char>, i: int, c: char)
    requires
        0 <= i <= s.len(),
    ensures
        i <= find_from(s, i, c) <= s.len(),
        find_from(s, i, c) < s.len() ==> s[find_from(s, i, c)] == c,
        forall|k: int| i <= k < find_from(s, i, c) ==> s[k] != c,
    decreases s.len() - i,
{
    if i < s.len() && s[i] != c {
        lemma_find_from(s, i + 1, c);
    }
}

/// The pieces of an f-string from index `i` on: a `{` opens code that runs
/// to the next `}` (or the end); everything else is text.
pub open spec fn fparts_from(s: Seq<char>, i: int) -> Seq<SPart>
    decreases s.len() - i,
{
    if i < 0 || i >= s.len() {
        Seq::empty()
    } else if s[i] == '{' {
        let j = find_from(s, i + 1, '}');
        let next = if j < s.len() { j + 1 } else { s.len() as int };
        if next <= i || next > s.len() {
            Seq::empty()
        } else {
            seq![SPart::Code(s.subrange(i + 1, j))] + fparts_from(s, next)
        }
    } else {
        let j = find_from(s, i, '{');
        if j <= i || j > s.len() {
            Seq::empty()
        } else {
            seq![SPart::Text(s.subrange(i, j))] + fparts_from(s, j)
        }
    }
}

fn find_char(s: &Vec<char>, i: usize, c: char) -> (j: usize)
    requires
        i <= s.len(),
    ensures
        j as int == find_from(s@, i as int, c),
{
    let mut j: usize = i;
    while j < s.len()
        invariant
            i <= j <= s.len(),
            find_from(s@, j as int, c) == find_from(s@, i as int, c),
        decreases s.len() - j,
    {
        if s[j] == c {
            return j;
        }
        j = j + 1;
    }
    j
}

fn chars_between(s: &Vec<char>, i: usize, j: usize) -> (r: String)
    requires
        i <= j <= s.len(),
    ensures
        r@ == s@.subrange(i as int, j as int),
{
    let mut r = String::new();
    let mut k: usize = i;
    while k < j
        invariant
            i <= k <= j,
            j <= s.len(),
            r@ == s@.subrange(i as int, k as int),
        decreases j - k,
    {
        push_char(&mut r, s[k]);
        proof {
            assert(r@ =~= s@.subrange(i as int, k + 1));
        }
        k = k + 1;
    }
    r
}

/// The pieces of an f-string, in order.
pub fn fstring_parts(s: &String) -> (r: Vec<FPart>)
    ensures
        fparts_view(r@) == fparts_from(s@, 0),
{
    let cs = chars_of(s.as_str());
    let mut r: Vec<FPart> = Vec::new();
    let mut i: usize = 0;
    while i < cs.len()
        invariant
            i <= cs.len(),
            cs@ == s@,
            fparts_view(r@) + fparts_from(cs@, i as int) == fparts_from(cs@, 0),
        decreases cs.len() - i,
    {
        let ghost r0 = fparts_view(r@);
        if cs[i] == '{' {
            let j = find_char(&cs, i + 1, '}');
            proof {
                lemma_find_from(cs@, i + 1, '}');
            }
            let code = chars_between(&cs, i + 1, j);
            r.push(FPart::Code(code));
            let next = if j < cs.len() { j + 1 } else { cs.len() };
            proof {
                assert(fparts_view(r@) =~= r0.push(SPart::Code(cs@.subrange(i + 1, j as int))));
                assert(fparts_from(cs@, i as int) == seq![SPart::Code(cs@.subrange(i + 1, j as int))] + fparts_from(cs@, next as int));
                assert(r0 + fparts_from(cs@, i as int) =~= fparts_view(r@) + fparts_from(cs@, next as int));
            }
            i = next;
        } else {
            let j = find_char(&cs, i, '{');
            proof {
                lemma_find_from(cs@, i as int, '{');
            }
            let text = chars_between(&cs, i, j);
            r.push(FPart::Text(text));
            proof {
                assert(fparts_view(r@) =~= r0.push(SPart::Text(cs@.subrange(i as int, j as int))));
                assert(fparts_from(cs@, i as int) == seq![SPart::Text(cs@.subrange(i as int, j as int))] + fparts_from(cs@, j as int));
                assert(r0 + fparts_from(cs@, i as int) =~= fparts_view(r@) + fparts_from(cs@, j as int));
            }
            i = j;
        }
    }
    proof {
        assert(fparts_view(r@) + fparts_from(cs@, i as int) =~= fparts_view(r@));
    }
    r
}

// ----------------------------------------------------------------------
// JSON words
// ----------------------------------------------------------------------

/// What a token stands for in a JSON text: the names `true`, `false` and
/// `null` are the constants; every other token stands for itself.
pub open spec fn json_kind(k: Kind) -> Kind {
    match k {
        Kind::Name(n) => if n == "true"@ {
            Kind::TrueVal
        } else if n == "false"@ {
            Kind::FalseVal
        } else if n == "null"@ {
            Kind::NoneVal
        } else {
            k
        },
        _ => k,
    }
}

/// Which constant a JSON word stands for, if any.
fn json_word(n: &String) -> (r: Option<TokenKind>)
    ensures
        match r {
            Some(k) => json_kind(Kind::Name(n@)) == k@,
            None => json_kind(Kind::Name(n@)) == Kind::Name(n@),
        },
{
    let t = "true".to_owned();
    let f = "false".to_owned();
    let z = "null".to_owned();
    if *n == t {
        Some(TokenKind::TrueVal)
    } else if *n == f {
        Some(TokenKind::FalseVal)
    } else if *n == z {
        Some(TokenKind::NoneVal)
    } else {
        None
    }
}

/// Reads the tokens of a JSON text as an expression: `true`, `false` and
/// `null` become the constants; positions stay.
pub fn json_words(toks: &mut Vec<Token>)
    ensures
        final(toks)@.len() == old(toks)@.len(),
        forall|i: int| 0 <= i < old(toks)@.len() ==> #[trigger] toks_view(final(toks)@)[i] == (Tok {
            kind: json_kind(old(toks)@[i].kind@),
            line: old(toks)@[i].line as int,
            col: old(toks)@[i].col as int,
        }),
{
    let mut i: usize = 0;
    while i < toks.len()
        invariant
            i <= toks.len(),
            toks@.len() == old(toks)@.len(),
            forall|x: int| 0 <= x < i ==> (#[trigger] toks@[x]).kind@ == json_kind(old(toks)@[x].kind@)
                && toks@[x].line == old(toks)@[x].line && toks@[x].col == old(toks)@[x].col,
            forall|x: int| i <= x < toks@.len() ==> #[trigger] toks@[x] == old(toks)@[x],
        decreases toks.len() - i,
    {
        let w = match &toks[i].kind {
            TokenKind::Name(n) => json_word(n),
            _ => None,
        };
        match w {
            Some(k) => {
                let line = toks[i].line;
                let col = toks[i].col;
                toks.set(i, Token { kind: k, line, col });
            },
            None => {},
        }
        i = i + 1;
    }
}

// ----------------------------------------------------------------------
// range
// ----------------------------------------------------------------------

/// The items of `range(end)`: the integers from zero up to `end`, excluded.
pub open spec fn range_vals(end: i64) -> Seq<SVal> {
    Seq::new(if end > 0 { end as nat } else { 0 }, |i: int| SVal::Int(i as i64))
}

/// The items of `range(end)`.
pub fn range_items(end: i64) -> (r: Vec<PyValue>)
    ensures
        vals_view(r@) == range_vals(end),
{
    let mut r: Vec<PyValue> = Vec::new();
    let mut i: i64 = 0;
    while i < end
        invariant
            0 <= i,
            end > 0 ==> i <= end,
            end <= 0 ==> i == 0,
            vals_view(r@) == Seq::new(i as nat, |x: int| SVal::Int(x as i64)),
        decreases end - i,
    {
        let v = PyValue::Int(i);
        proof {
            lemma_vals_push(r@, v);
        }
        r.push(v);
        proof {
            assert(vals_view(r@) =~= Seq::new((i + 1) as nat, |x: int| SVal::Int(x as i64)));
        }
        i = i + 1;
    }
    proof {
        assert(vals_view(r@) =~= range_vals(end));
    }
    r
}

// ----------------------------------------------------------------------
// Strings
// ----------------------------------------------------------------------

/// Whether `sep` occurs in `s` at index `i`.
pub open spec fn sep_at(s: Seq<char>, sep: Seq<char>, i: int) -> bool {
    0 <= i && i + sep.len() <= s.len() && s.subrange(i, i + sep.len()) == sep
}

/// The first index from `i` on where `sep` occurs, if any.
pub open spec fn find_sep(s: Seq<char>, sep: Seq<char>, i: int) -> Option<int>
    decreases s.len() + 1 - i,
{
    if i < 0 || i + sep.len() > s.len() {
        None
    } else if sep_at(s, sep, i) {
        Some(i)
    } else {
        find_sep(s, sep, i + 1)
    }
}

/// The pieces of `s` from index `i` on, cut at each occurrence of a
/// non-empty `sep`, from the left.
pub open spec fn split_from(s: Seq<char>, sep: Seq<char>, i: int) -> Seq<Seq<char>>
    decreases s.len() - i,
{
    if sep.len() == 0 || i < 0 || i > s.len() {
        Seq::empty()
    } else {
        match find_sep(s, sep, i) {
            None => seq![s.subrange(i, s.len() as int)],
            Some(j) => if j < i || j + sep.len() > s.len() {
                Seq::empty()
            } else {
                seq![s.subrange(i, j)] + split_from(s, sep, j + sep.len())
            },
        }
    }
}

/// The pieces `s.split(sep)` gives: cut at each occurrence of `sep`; an empty
/// `sep` cuts around every character, with an empty piece at each end.
pub open spec fn split_spec(s: Seq<char>, sep: Seq<char>) -> Seq<Seq<char>> {
    if sep.len() == 0 {
        seq![Seq::<char>::empty()] + Seq::new(s.len(), |i: int| seq![s[i]]) + seq![Seq::<char>::empty()]
    } else {
        split_from(s, sep, 0)
    }
}

/// The strings of `parts` with `sep` between each two.
pub open spec fn join_spec(parts: Seq<Seq<char>>, sep: Seq<char>) -> Seq<char>
    decreases parts.len(),
{
    if parts.len() == 0 {
        Seq::empty()
    } else if parts.len() == 1 {
        parts[0]
    } else {
        join_spec(parts.drop_last(), sep) + sep + parts.last()
    }
}

pub proof fn lemma_find_sep(s: Seq<char>, sep: Seq<char>, i: int)
    requires
        0 <= i,
    ensures
        find_sep(s, sep, i) matches Some(j) ==> i <= j && sep_at(s, sep, j),
        find_sep(s, sep, i) is None ==> forall|k: int| i <= k && k + sep.len() <= s.len() ==> !sep_at(s, sep, k),
    decreases s.len() + 1 - i,
{
    if i + sep.len() <= s.len() && !sep_at(s, sep, i) {
        lemma_find_sep(s, sep, i + 1);
    }
}

fn sep_here(cs: &Vec<char>, sep: &Vec<char>, i: usize) -> (r: bool)
    ensures
        r == sep_at(cs@, sep@, i as int),
{
    if i > cs.len() || sep.len() > cs.len() - i {
        return false;
    }
    let mut k: usize = 0;
    while k < sep.len()
        invariant
            i + sep.len() <= cs.len(),
            k <= sep.len(),
            forall|x: int| 0 <= x < k ==> cs@[i + x] == sep@[x],
        decreases sep.len() - k,
    {
        if cs[i + k] != sep[k] {
            assert(cs@.subrange(i as int, i + sep.len())[k as int] != sep@[k as int]);
            return false;
        }
        k = k + 1;
    }
    assert(cs@.subrange(i as int, i + sep.len()) =~= sep@);
    true
}

fn next_sep(cs: &Vec<char>, sep: &Vec<char>, i: usize) -> (r: Option<usize>)
    requires
        i <= cs.len(),
    ensures
        match r {
            Some(j) => find_sep(cs@, sep@, i as int) == Some(j as int),
            None => find_sep(cs@, sep@, i as int) is None,
        },
{
    let mut j: usize = i;
    while j <= cs.len() && sep.len() <= cs.len() - j
        invariant
            i <= j,
            find_sep(cs@, sep@, j as int) == find_sep(cs@, sep@, i as int),
        decreases cs.len() + 1 - j,
    {
        if sep_here(cs, sep, j) {
            return Some(j);
        }
        if j >= cs.len() {
            proof {
                if sep@.len() == 0 {
                    assert(cs@.subrange(j as int, j as int) =~= sep@);
                }
            }
            return None;
        }
        j = j + 1;
    }
    None
}

/// The pieces `s.split(sep)` gives.
pub fn split_text(s: &String, sep: &String) -> (r: Vec<String>)
    ensures
        crate::call::strs(r@) == split_spec(s@, sep@),
{
    let cs = chars_of(s.as_str());
    let sp = chars_of(sep.as_str());
    let mut r: Vec<String> = Vec::new();
    if sp.len() == 0 {
        r.push(String::new());
        let mut i: usize = 0;
        while i < cs.len()
            invariant
                i <= cs.len(),
                cs@ == s@,
                crate::call::strs(r@) == seq![Seq::<char>::empty()] + Seq::new(i as nat, |x: int| seq![cs@[x]]),
            decreases cs.len() - i,
        {
            let mut one = String::new();
            push_char(&mut one, cs[i]);
            let ghost r0 = r@;
            let ghost ov = one@;
            r.push(one);
            proof {
                assert(crate::call::strs(r@) =~= crate::call::strs(r0).push(ov));
                assert(ov =~= seq![cs@[i as int]]);
                assert(crate::call::strs(r@) =~= seq![Seq::<char>::empty()] + Seq::new((i + 1) as nat, |x: int| seq![cs@[x]]));
            }
            i = i + 1;
        }
        r.push(String::new());
        proof {
            assert(crate::call::strs(r@) =~= split_spec(s@, sep@));
        }
        return r;
    }
    let mut i: usize = 0;
    loop
        invariant
            i <= cs.len(),
            cs@ == s@,
            sp@ == sep@,
            sp.len() > 0,
            crate::call::strs(r@) + split_from(cs@, sp@, i as int) == split_from(cs@, sp@, 0),
        decreases cs.len() - i,
    {
        let ghost r0 = crate::call::strs(r@);
        match next_sep(&cs, &sp, i) {
            None => {
                let piece = chars_between(&cs, i, cs.len());
                r.push(piece);
                proof {
                    assert(crate::call::strs(r@) =~= r0.push(cs@.subrange(i as int, cs.len() as int)));
                    assert(split_from(cs@, sp@, i as int) == seq![cs@.subrange(i as int, cs.len() as int)]);
                    assert(crate::call::strs(r@) =~= r0 + split_from(cs@, sp@, i as int));
                }
                return r;
            },
            Some(j) => {
                proof {
                    lemma_find_sep(cs@, sp@, i as int);
                }
                let piece = chars_between(&cs, i, j);
                r.push(piece);
                proof {
                    assert(crate::call::strs(r@) =~= r0.push(cs@.subrange(i as int, j as int)));
                    assert(split_from(cs@, sp@, i as int) == seq![cs@.subrange(i as int, j as int)] + split_from(cs@, sp@, j + sp.len()));
                    assert(r0 + split_from(cs@, sp@, i as int) =~= crate::call::strs(r@) + split_from(cs@, sp@, j + sp.len()));
                }
                i = j + sp.len();
            },
        }
    }
}

/// The strings of `parts` with `sep` between each two.
pub fn join_text(sep: &String, parts: &Vec<String>) -> (r: String)
    ensures
        r@ == join_spec(crate::call::strs(parts@), sep@),
{
    let mut r = String::new();
    let mut i: usize = 0;
    while i < parts.len()
        invariant
            i <= parts.len(),
            r@ == join_spec(crate::call::strs(parts@.subrange(0, i as int)), sep@),
        decreases parts.len() - i,
    {
        let ghost prev = crate::call::strs(parts@.subrange(0, i as int));
        proof {
            let cur = crate::call::strs(parts@.subrange(0, i + 1));
            assert(cur.drop_last() =~= prev);
            assert(cur.last() == parts@[i as int]@);
        }
        if i > 0 {
            r.append(sep.as_str());
        }
        r.append(parts[i].as_str());
        proof {
            let cur = crate::call::strs(parts@.subrange(0, i + 1));
            if i == 0 {
                assert(r@ =~= cur[0]);
            } else {
                assert(r@ =~= join_spec(prev, sep@) + sep@ + cur.last());
            }
        }
        i = i + 1;
    }
    proof {
        assert(parts@.subrange(0, parts.len() as int) =~= parts@);
    }
    r
}

/// The characters of a string, each as a one-character string: what a loop
/// over a string runs through.
pub fn str_chars(s: &String) -> (r: Vec<PyValue>)
    ensures
        vals_view(r@) == Seq::new(s@.len(), |i: int| SVal::Str(seq![s@[i]])),
{
    let cs = chars_of(s.as_str());
    let mut r: Vec<PyValue> = Vec::new();
    let mut i: usize = 0;
    while i < cs.len()
        invariant
            i <= cs.len(),
            cs@ == s@,
            vals_view(r@) == Seq::new(i as nat, |x: int| SVal::Str(seq![cs@[x]])),
        decreases cs.len() - i,
    {
        let mut one = String::new();
        push_char(&mut one, cs[i]);
        let v = PyValue::Str(one);
        proof {
            lemma_vals_push(r@, v);
        }
        r.push(v);
        proof {
            assert(vals_view(r@) =~= Seq::new((i + 1) as nat, |x: int| SVal::Str(seq![cs@[x]])));
        }
        i = i + 1;
    }
    r
}

// ----------------------------------------------------------------------
// Finding a module's file
// ----------------------------------------------------------------------

/// A module name as a relative path: dots become slashes.
pub open spec fn module_rel_path(name: Seq<char>) -> Seq<char> {
    name.map_values(|c: char| if c == '.' { '/' } else { c })
}

/// The directories searched for a module, in order: the directory of the
/// module being run, if any, then `.`, then the strings on `sys.path`.
pub open spec fn search_dirs(mod_dir: Option<Seq<char>>, path: Seq<SVal>) -> Seq<Seq<char>> {
    let rest = seq!["."@] + str_items(path);
    match mod_dir {
        Some(d) => seq![d] + rest,
        None => rest,
    }
}

/// The strings among `vs`, in order.
pub open spec fn str_items(vs: Seq<SVal>) -> Seq<Seq<char>>
    decreases vs.len(),
{
    if vs.len() == 0 {
        Seq::empty()
    } else {
        let r = str_items(vs.drop_last());
        match vs.last() {
            SVal::Str(t) => r.push(t),
            _ => r,
        }
    }
}

/// The files tried for module `name`, in order: in each directory, the
/// module's own file, then its package's `__init__.py`.
pub open spec fn module_files(dirs: Seq<Seq<char>>, name: Seq<char>) -> Seq<Seq<char>>
    decreases dirs.len(),
{
    if dirs.len() == 0 {
        Seq::empty()
    } else {
        let p = module_rel_path(name);
        module_files(dirs.drop_last(), name)
            + seq![dirs.last() + "/"@ + p + ".py"@, dirs.last() + "/"@ + p + "/__init__.py"@]
    }
}

/// The package a loaded module runs in: the module itself when its file is a
/// package's `__init__.py`, else the last part of its name.
pub open spec fn package_of(file: Seq<char>, name: Seq<char>) -> Seq<char> {
    if find_sep(file, "__init__.py"@, 0) is Some {
        name
    } else {
        after_last_dot(name)
    }
}

/// The directories searched for a module, in order.
pub fn module_search_dirs(mod_dir: &Option<String>, path: &Vec<PyValue>) -> (r: Vec<String>)
    ensures
        crate::call::strs(r@) == search_dirs(crate::call::opt_str(*mod_dir), vals_view(path@)),
{
    proof {
        crate::value::lemma_vals_view(path@);
    }
    let ghost pv = vals_view(path@);
    let mut r: Vec<String> = Vec::new();
    match mod_dir {
        Some(d) => r.push(d.clone()),
        None => {},
    }
    r.push(".".to_owned());
    let ghost head = crate::call::strs(r@);
    proof {
        assert(head =~= match crate::call::opt_str(*mod_dir) {
            Some(d) => seq![d] + seq!["."@],
            None => seq!["."@],
        });
    }
    let mut i: usize = 0;
    while i < path.len()
        invariant
            i <= path.len(),
            pv == vals_view(path@),
            pv.len() == path.len(),
            forall|x: int| 0 <= x < path.len() ==> #[trigger] pv[x] == path@[x].sv(),
            crate::call::strs(r@) == head + str_items(pv.subrange(0, i as int)),
        decreases path.len() - i,
    {
        proof {
            assert(pv.subrange(0, i + 1).drop_last() =~= pv.subrange(0, i as int));
            assert(pv.subrange(0, i + 1).last() == path@[i as int].sv());
        }
        match &path[i] {
            PyValue::Str(t) => {
                let ghost r0 = r@;
                r.push(t.clone());
                proof {
                    assert(crate::call::strs(r@) =~= crate::call::strs(r0).push(t@));
                    assert(head + str_items(pv.subrange(0, i + 1)) =~= (head + str_items(pv.subrange(0, i as int))).push(t@));
                }
            },
            _ => {},
        }
        i = i + 1;
    }
    proof {
        assert(pv.subrange(0, path.len() as int) =~= pv);
        assert(crate::call::strs(r@) =~= search_dirs(crate::call::opt_str(*mod_dir), pv));
    }
    r
}

fn path_of_name(name: &String) -> (r: String)
    ensures
        r@ == module_rel_path(name@),
{
    let cs = chars_of(name.as_str());
    let mut r = String::new();
    let mut i: usize = 0;
    while i < cs.len()
        invariant
            i <= cs.len(),
            cs@ == name@,
            r@ == cs@.subrange(0, i as int).map_values(|c: char| if c == '.' { '/' } else { c }),
        decreases cs.len() - i,
    {
        let c = if cs[i] == '.' { '/' } else { cs[i] };
        push_char(&mut r, c);
        proof {
            assert(r@ =~= cs@.subrange(0, i + 1).map_values(|c: char| if c == '.' { '/' } else { c }));
        }
        i = i + 1;
    }
    proof {
        assert(cs@.subrange(0, cs.len() as int) =~= cs@);
    }
    r
}

/// The files tried for module `name`, in order.
pub fn module_file_candidates(dirs: &Vec<String>, name: &String) -> (r: Vec<String>)
    ensures
        crate::call::strs(r@) == module_files(crate::call::strs(dirs@), name@),
{
    let p = path_of_name(name);
    let mut r: Vec<String> = Vec::new();
    let mut i: usize = 0;
    while i < dirs.len()
        invariant
            i <= dirs.len(),
            p@ == module_rel_path(name@),
            crate::call::strs(r@) == module_files(crate::call::strs(dirs@.subrange(0, i as int)), name@),
        decreases dirs.len() - i,
    {
        let ghost r0 = crate::call::strs(r@);
        let mut f = dirs[i].clone();
        f.append("/");
        f.append(p.as_str());
        let mut g = f.clone();
        f.append(".py");
        g.append("/__init__.py");
        let ghost fv = f@;
        let ghost gv = g@;
        r.push(f);
        r.push(g);
        proof {
            let ds = crate::call::strs(dirs@.subrange(0, i + 1));
            assert(ds.drop_last() =~= crate::call::strs(dirs@.subrange(0, i as int)));
            assert(ds.last() == dirs@[i as int]@);
            assert(crate::call::strs(r@) =~= r0 + seq![fv, gv]);
            assert(fv =~= dirs@[i as int]@ + "/"@ + p@ + ".py"@);
            assert(gv =~= dirs@[i as int]@ + "/"@ + p@ + "/__init__.py"@);
        }
        i = i + 1;
    }
    proof {
        assert(dirs@.subrange(0, dirs.len() as int) =~= dirs@);
    }
    r
}

/// The package a module loaded from `file` runs in.
pub fn package_after_load(file: &String, name: &String) -> (r: String)
    ensures
        r@ == package_of(file@, name@),
{
    let cs = chars_of(file.as_str());
    let init = chars_of("__init__.py");
    match next_sep(&cs, &init, 0) {
        Some(_) => name.clone(),
        None => last_component(name),
    }
}


/// The error of an import that no module answers.
pub fn no_module_error(name: &String) -> (r: PyValue)
    ensures
        r.sv() == exc_sv("ImportError"@, "No module named '"@ + name@ + "'"@),
{
    let mut m = "No module named '".to_owned();
    m.append(name.as_str());
    m.append("'");
    crate::value::py_err_string("ImportError", m)
}

} // verus!
