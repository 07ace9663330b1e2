//! Runtime values, and the exceptions the interpreter raises.
use vstd::prelude::*;
use crate::text::{dec, push_char, push_dec64};

verus! {

/// A runtime value. Lists, dicts, classes, instances and scopes live in a
/// [`Heap`](crate::heap::Heap) and are named by their index there; functions,
/// builtins and open files by their index in the tables of the runtime that
/// embeds the heap.
#[derive(Debug)]
pub enum PyValue {
    NoneVal,
    Bool(bool),
    Int(i64),
    /// A float, by its IEEE-754 bit pattern.
    Float(u64),
    Str(String),
    Tuple(Vec<PyValue>),
    List(usize),
    Dict(usize),
    Function(usize),
    Builtin(usize),
    /// A method of a built-in object, by name (`items.append`).
    Method(Box<PyValue>, String),
    Class(usize),
    Instance(usize),
    /// A function together with the receiver it is bound to.
    BoundMethod(Box<PyValue>, Box<PyValue>),
    /// An exception: its type name and its argument.
    Exception(String, Box<PyValue>),
    /// A module: its name and the scope holding its globals.
    Module(String, usize),
    File(usize),
}

/// The mathematical form of a value.
pub enum SVal {
    NoneVal,
    Bool(bool),
    Int(i64),
    Float(u64),
    Str(Seq<char>),
    Tuple(Seq<SVal>),
    List(usize),
    Dict(usize),
    Function(usize),
    Builtin(usize),
    Method(Box<SVal>, Seq<char>),
    Class(usize),
    Instance(usize),
    BoundMethod(Box<SVal>, Box<SVal>),
    Exception(Seq<char>, Box<SVal>),
    Module(Seq<char>, usize),
    File(usize),
}

pub open spec fn vals_view(s: Seq<PyValue>) -> Seq<SVal>
    decreases s, 1nat,
{
    if s.len() == 0 {
        Seq::empty()
    } else {
        vals_view(s.drop_last()).push(s.last().sv())
    }
}

impl PyValue {
    /// The mathematical form of the value.
    pub open spec fn sv(&self) -> SVal
        decreases self, 0nat,
    {
        match self {
            PyValue::NoneVal => SVal::NoneVal,
            PyValue::Bool(b) => SVal::Bool(*b),
            PyValue::Int(i) => SVal::Int(*i),
            PyValue::Float(f) => SVal::Float(*f),
            PyValue::Str(s) => SVal::Str(s@),
            PyValue::Tuple(v) => SVal::Tuple(vals_view(v@)),
            PyValue::List(h) => SVal::List(*h),
            PyValue::Dict(h) => SVal::Dict(*h),
            PyValue::Function(h) => SVal::Function(*h),
            PyValue::Builtin(h) => SVal::Builtin(*h),
            PyValue::Method(o, n) => SVal::Method(Box::new(o.sv()), n@),
            PyValue::Class(h) => SVal::Class(*h),
            PyValue::Instance(h) => SVal::Instance(*h),
            PyValue::BoundMethod(r, f) => SVal::BoundMethod(Box::new(r.sv()), Box::new(f.sv())),
            PyValue::Exception(t, a) => SVal::Exception(t@, Box::new(a.sv())),
            PyValue::Module(n, h) => SVal::Module(n@, *h),
            PyValue::File(h) => SVal::File(*h),
        }
    }

    /// A copy of the value, equal to it in every part.
    pub fn copy(&self) -> (r: PyValue)
        ensures
            r.sv() == self.sv(),
        decreases self, 0nat,
    {
        match self {
            PyValue::NoneVal => PyValue::NoneVal,
            PyValue::Bool(b) => PyValue::Bool(*b),
            PyValue::Int(i) => PyValue::Int(*i),
            PyValue::Float(f) => PyValue::Float(*f),
            PyValue::Str(s) => PyValue::Str(s.clone()),
            PyValue::Tuple(v) => PyValue::Tuple(copy_vals(v)),
            PyValue::List(h) => PyValue::List(*h),
            PyValue::Dict(h) => PyValue::Dict(*h),
            PyValue::Function(h) => PyValue::Function(*h),
            PyValue::Builtin(h) => PyValue::Builtin(*h),
            PyValue::Method(o, n) => PyValue::Method(Box::new((**o).copy()), n.clone()),
            PyValue::Class(h) => PyValue::Class(*h),
            PyValue::Instance(h) => PyValue::Instance(*h),
            PyValue::BoundMethod(r, f) => PyValue::BoundMethod(Box::new((**r).copy()), Box::new((**f).copy())),
            PyValue::Exception(t, a) => PyValue::Exception(t.clone(), Box::new((**a).copy())),
            PyValue::Module(n, h) => PyValue::Module(n.clone(), *h),
            PyValue::File(h) => PyValue::File(*h),
        }
    }
}

pub proof fn lemma_vals_push(s: Seq<PyValue>, v: PyValue)
    ensures
        vals_view(s.push(v)) == vals_view(s).push(v.sv()),
{
    assert(s.push(v).drop_last() =~= s);
}

pub proof fn lemma_vals_view(s: Seq<PyValue>)
    ensures
        vals_view(s).len() == s.len(),
        forall|i: int| 0 <= i < s.len() ==> #[trigger] vals_view(s)[i] == s[i].sv(),
    decreases s.len(),
{
    if s.len() > 0 {
        lemma_vals_view(s.drop_last());
    }
}

/// A copy of every value of `v`, in order.
pub fn copy_vals(v: &Vec<PyValue>) -> (r: Vec<PyValue>)
    ensures
        vals_view(r@) == vals_view(v@),
    decreases v, 1nat,
{
    let mut r: Vec<PyValue> = Vec::new();
    let mut i: usize = 0;
    while i < v.len()
        invariant
            i <= v.len(),
            vals_view(r@) == vals_view(v@.subrange(0, i as int)),
        decreases v.len() - i,
    {
        let e = v[i].copy();
        proof {
            lemma_vals_push(r@, e);
            assert(v@.subrange(0, i + 1).drop_last() =~= v@.subrange(0, i as int));
        }
        r.push(e);
        i = i + 1;
    }
    proof {
        assert(v@.subrange(0, v.len() as int) =~= v@);
    }
    r
}

pub open spec fn opt_sv(o: Option<PyValue>) -> Option<SVal> {
    match o {
        Some(v) => Some(v.sv()),
        None => None,
    }
}

/// The exception value of type `typ` whose argument is the string `msg`.
pub open spec fn exc_sv(typ: Seq<char>, msg: Seq<char>) -> SVal {
    SVal::Exception(typ, Box::new(SVal::Str(msg)))
}

/// An `Err` carrying the exception `typ(msg)`.
pub fn py_err<T>(typ: &str, msg: &str) -> (r: Result<T, PyValue>)
    ensures
        r matches Err(e) && e.sv() == exc_sv(typ@, msg@),
{
    Err(py_err_val(typ, msg))
}

/// The exception `typ(msg)`.
pub fn py_err_val(typ: &str, msg: &str) -> (r: PyValue)
    ensures
        r.sv() == exc_sv(typ@, msg@),
{
    py_err_string(typ, msg.to_owned())
}

/// The exception `typ(msg)` for a message already built.
pub fn py_err_string(typ: &str, msg: String) -> (r: PyValue)
    ensures
        r.sv() == exc_sv(typ@, msg@),
{
    let a = PyValue::Str(msg);
    assert(a.sv() == SVal::Str(a->Str_0@));
    PyValue::Exception(typ.to_owned(), Box::new(a))
}

/// The bit pattern of a float with its sign bit cleared.
pub open spec fn float_magnitude(bits: u64) -> int {
    (bits as int) % 0x8000_0000_0000_0000
}

/// Whether a float is zero, of either sign.
pub open spec fn float_is_zero(bits: u64) -> bool {
    float_magnitude(bits) == 0
}

/// Whether a float is not a number.
pub open spec fn float_is_nan(bits: u64) -> bool {
    float_magnitude(bits) > 0x7FF0_0000_0000_0000
}

/// IEEE-754 equality: no NaN is equal to anything, and the two zeros are equal.
pub open spec fn float_eq(a: u64, b: u64) -> bool {
    !float_is_nan(a) && !float_is_nan(b) && (a == b || (float_is_zero(a) && float_is_zero(b)))
}

fn magnitude(bits: u64) -> (m: u64)
    ensures
        m as int == float_magnitude(bits),
{
    if bits >= 0x8000_0000_0000_0000u64 {
        bits - 0x8000_0000_0000_0000u64
    } else {
        bits
    }
}

/// Whether a float is zero, of either sign.
pub fn float_zero(bits: u64) -> (r: bool)
    ensures
        r == float_is_zero(bits),
{
    magnitude(bits) == 0
}

/// IEEE-754 equality of two floats given by their bit patterns.
pub fn float_equal(a: u64, b: u64) -> (r: bool)
    ensures
        r == float_eq(a, b),
{
    let ma = magnitude(a);
    let mb = magnitude(b);
    if ma > 0x7FF0_0000_0000_0000u64 || mb > 0x7FF0_0000_0000_0000u64 {
        return false;
    }
    a == b || (ma == 0 && mb == 0)
}

/// The decimal rendering of an integer, with a leading `-` when negative.
pub open spec fn int_text(i: i64) -> Seq<char> {
    if i < 0 {
        seq!['-'] + dec((-(i as int)) as nat)
    } else {
        dec(i as nat)
    }
}

/// The decimal rendering of an integer.
pub fn int_to_string(i: i64) -> (s: String)
    ensures
        s@ == int_text(i),
{
    let mut s = String::new();
    if i < 0 {
        push_char(&mut s, '-');
        let m: u64 = if i == i64::MIN {
            0x8000_0000_0000_0000u64
        } else {
            (-i) as u64
        };
        push_dec64(&mut s, m);
    } else {
        push_dec64(&mut s, i as u64);
        assert(s@ =~= dec(i as nat));
    }
    s
}

/// The dictionary key a value stands for: a string is its own key, an
/// integer its decimal rendering; no other value is hashable.
pub open spec fn key_of(v: SVal) -> Option<Seq<char>> {
    match v {
        SVal::Str(s) => Some(s),
        SVal::Int(i) => Some(int_text(i)),
        _ => None,
    }
}

/// Equality of values as `==` compares them: numbers and strings by value
/// (a float never equals an int), `None` with `None`; nothing else is equal.
pub open spec fn values_eq(a: SVal, b: SVal) -> bool {
    match a {
        SVal::NoneVal => b is NoneVal,
        SVal::Bool(x) => b matches SVal::Bool(y) && x == y,
        SVal::Int(x) => b matches SVal::Int(y) && x == y,
        SVal::Float(x) => b matches SVal::Float(y) && float_eq(x, y),
        SVal::Str(x) => b matches SVal::Str(y) && x == y,
        _ => false,
    }
}

impl PyValue {
    /// The dictionary key of the value, or `TypeError("unhashable type")`.
    pub fn as_key(&self) -> (r: Result<String, PyValue>)
        ensures
            match r {
                Ok(k) => key_of(self.sv()) == Some(k@),
                Err(e) => key_of(self.sv()) is None && e.sv() == exc_sv("TypeError"@, "unhashable type"@),
            },
    {
        match self {
            PyValue::Str(s) => Ok(s.clone()),
            PyValue::Int(i) => Ok(int_to_string(*i)),
            _ => py_err("TypeError", "unhashable type"),
        }
    }

    /// Whether `self == other`.
    pub fn py_eq(&self, other: &PyValue) -> (r: bool)
        ensures
            r == values_eq(self.sv(), other.sv()),
    {
        match (self, other) {
            (PyValue::NoneVal, PyValue::NoneVal) => true,
            (PyValue::Bool(a), PyValue::Bool(b)) => *a == *b,
            (PyValue::Int(a), PyValue::Int(b)) => *a == *b,
            (PyValue::Float(a), PyValue::Float(b)) => float_equal(*a, *b),
            (PyValue::Str(a), PyValue::Str(b)) => *a == *b,
            _ => false,
        }
    }
}

} // verus!
