//! Binding the arguments of a call to the parameters of a function.
//!
//! Positional arguments go to the parameters in order; what is left of them
//! goes to the `*args` tuple, when there is one. A keyword argument names a
//! parameter, or goes to the `**kwargs` dict, when there is one. A parameter
//! that gets nothing takes its default.
use vstd::prelude::*;
use crate::value::{PyValue, SVal, vals_view, exc_sv, copy_vals, lemma_vals_view, py_err_string};
use crate::table::{Table, tview, tfind, tput, tbl_get, lemma_tview};
use crate::text::{dec, push_dec};
use crate::heap::{Heap, HeapView, FrameView};

verus! {

/// What a call binds in the scope of the function, in the order it binds it:
/// `early` (the positional parameters, the `*args` tuple, the parameters
/// given by keyword), then the `**kwargs` dict of the keyword arguments that
/// name no parameter, then `late` (the defaults of the parameters left).
pub struct Binding {
    pub early: Table,
    pub kw_dict: Option<(String, Table)>,
    pub late: Table,
}

/// Whether `k` is one of the first `n` parameters.
pub open spec fn positional(p: Seq<Seq<char>>, n: int, k: Seq<char>) -> bool {
    exists|i: int| 0 <= i < n && p[i] == k
}

/// Whether some keyword argument names `k`.
pub open spec fn kw_has(kws: Seq<(Seq<char>, SVal)>, k: Seq<char>) -> bool {
    exists|j: int| 0 <= j < kws.len() && kws[j].0 == k
}

/// Keyword argument `j` names a parameter that already has a value: one
/// bound by position, or by an earlier keyword argument.
pub open spec fn clash(p: Seq<Seq<char>>, n: int, kws: Seq<(Seq<char>, SVal)>, j: int) -> bool {
    &&& p.contains(kws[j].0)
    &&& (positional(p, n, kws[j].0) || exists|i: int| 0 <= i < j && kws[i].0 == kws[j].0)
}

/// Parameter `i` gets no value: not by position, not by keyword, not by default.
pub open spec fn unfilled(p: Seq<Seq<char>>, n: int, kws: Seq<(Seq<char>, SVal)>, d: Seq<(Seq<char>, SVal)>, i: int) -> bool {
    !positional(p, n, p[i]) && !kw_has(kws, p[i]) && tfind(d, p[i]) is None
}

pub open spec fn any_clash(p: Seq<Seq<char>>, n: int, kws: Seq<(Seq<char>, SVal)>) -> bool {
    exists|j: int| 0 <= j < kws.len() && clash(p, n, kws, j)
}

/// The first keyword argument that clashes.
pub open spec fn first_clash(p: Seq<Seq<char>>, n: int, kws: Seq<(Seq<char>, SVal)>) -> int {
    choose|j: int| 0 <= j < kws.len() && clash(p, n, kws, j) && forall|i: int| 0 <= i < j ==> !clash(p, n, kws, i)
}

pub open spec fn any_unfilled(p: Seq<Seq<char>>, n: int, kws: Seq<(Seq<char>, SVal)>, d: Seq<(Seq<char>, SVal)>) -> bool {
    exists|i: int| 0 <= i < p.len() && unfilled(p, n, kws, d, i)
}

/// The first parameter that gets no value.
pub open spec fn first_unfilled(p: Seq<Seq<char>>, n: int, kws: Seq<(Seq<char>, SVal)>, d: Seq<(Seq<char>, SVal)>) -> int {
    choose|i: int| 0 <= i < p.len() && unfilled(p, n, kws, d, i) && forall|h: int| 0 <= h < i ==> !unfilled(p, n, kws, d, h)
}

/// The keyword arguments, in order, that name a parameter (`keep`) or none (`!keep`).
pub open spec fn kw_split(p: Seq<Seq<char>>, kws: Seq<(Seq<char>, SVal)>, keep: bool) -> Seq<(Seq<char>, SVal)>
    decreases kws.len(),
{
    if kws.len() == 0 {
        Seq::empty()
    } else {
        let r = kw_split(p, kws.drop_last(), keep);
        if p.contains(kws.last().0) == keep {
            r.push(kws.last())
        } else {
            r
        }
    }
}

/// The defaults taken by the first `m` parameters that get nothing else.
pub open spec fn default_writes(
    p: Seq<Seq<char>>,
    n: int,
    kws: Seq<(Seq<char>, SVal)>,
    d: Seq<(Seq<char>, SVal)>,
    m: int,
) -> Seq<(Seq<char>, SVal)>
    decreases m,
{
    if m <= 0 {
        Seq::empty()
    } else {
        let r = default_writes(p, n, kws, d, m - 1);
        let q = p[m - 1];
        if !positional(p, n, q) && !kw_has(kws, q) {
            r.push((q, tfind(d, q)->0))
        } else {
            r
        }
    }
}

/// The positional parameters bound, in order, then the `*args` tuple.
pub open spec fn positional_writes(p: Seq<Seq<char>>, a: Seq<SVal>, var: Option<Seq<char>>) -> Seq<(Seq<char>, SVal)> {
    let n = if a.len() < p.len() { a.len() as int } else { p.len() as int };
    let pos = Seq::new(n as nat, |i: int| (p[i], a[i]));
    match var {
        Some(v) => pos.push((v, SVal::Tuple(a.subrange(n, a.len() as int)))),
        None => pos,
    }
}

pub open spec fn msg_takes(name: Seq<char>, np: nat, na: nat) -> Seq<char> {
    name + "() takes "@ + dec(np) + " positional arguments but "@ + dec(na) + " were given"@
}

pub open spec fn msg_multiple(name: Seq<char>, k: Seq<char>) -> Seq<char> {
    name + "() got multiple values for argument '"@ + k + "'"@
}

pub open spec fn msg_unexpected(name: Seq<char>, k: Seq<char>) -> Seq<char> {
    name + "() got an unexpected keyword argument '"@ + k + "'"@
}

pub open spec fn msg_missing(name: Seq<char>, k: Seq<char>) -> Seq<char> {
    name + "() missing required argument: '"@ + k + "'"@
}

/// The `TypeError` message a call fails with, if it fails.
pub open spec fn bind_error(
    name: Seq<char>,
    p: Seq<Seq<char>>,
    d: Seq<(Seq<char>, SVal)>,
    has_var: bool,
    has_kw: bool,
    na: nat,
    kws: Seq<(Seq<char>, SVal)>,
) -> Option<Seq<char>> {
    let n = if na < p.len() { na as int } else { p.len() as int };
    if !has_var && na > p.len() {
        Some(msg_takes(name, p.len(), na))
    } else if any_clash(p, n, kws) {
        Some(msg_multiple(name, kws[first_clash(p, n, kws)].0))
    } else if !has_kw && kw_split(p, kws, false).len() > 0 {
        Some(msg_unexpected(name, kw_split(p, kws, false)[0].0))
    } else if any_unfilled(p, n, kws, d) {
        Some(msg_missing(name, p[first_unfilled(p, n, kws, d)]))
    } else {
        None
    }
}

proof fn lemma_kw_split_extra(p: Seq<Seq<char>>, kws: Seq<(Seq<char>, SVal)>)
    ensures
        (kw_split(p, kws, false).len() > 0) == (exists|j: int| 0 <= j < kws.len() && !p.contains(#[trigger] kws[j].0)),
    decreases kws.len(),
{
    if kws.len() > 0 {
        let ks = kws.drop_last();
        lemma_kw_split_extra(p, ks);
        if exists|j: int| 0 <= j < ks.len() && !p.contains(#[trigger] ks[j].0) {
            let j = choose|j: int| 0 <= j < ks.len() && !p.contains(#[trigger] ks[j].0);
            assert(kws[j] == ks[j]);
        }
        if exists|j: int| 0 <= j < kws.len() && !p.contains(#[trigger] kws[j].0) {
            let j = choose|j: int| 0 <= j < kws.len() && !p.contains(#[trigger] kws[j].0);
            if j < ks.len() {
                assert(ks[j] == kws[j]);
            }
        }
    }
}

proof fn lemma_bind_error_cases(name: Seq<char>, p: Seq<Seq<char>>, d: Seq<(Seq<char>, SVal)>, na: nat, kws: Seq<(Seq<char>, SVal)>)
    ensures
        ({
            let n = if na < p.len() { na as int } else { p.len() as int };
            (bind_error(name, p, d, false, false, na, kws) is Some) == (na > p.len() || any_clash(p, n, kws)
                || kw_split(p, kws, false).len() > 0 || any_unfilled(p, n, kws, d))
        }),
{
}

proof fn lemma_bad_keyword(p: Seq<Seq<char>>, n: int, kws: Seq<(Seq<char>, SVal)>)
    requires
        0 <= n <= p.len(),
        forall|i: int, j: int| 0 <= i < j < kws.len() ==> kws[i].0 != kws[j].0,
    ensures
        (any_clash(p, n, kws) || kw_split(p, kws, false).len() > 0)
            == (exists|j: int| 0 <= j < kws.len() && (!p.contains(#[trigger] kws[j].0) || positional(p, n, kws[j].0))),
{
    lemma_kw_split_extra(p, kws);
    if any_clash(p, n, kws) {
        let j = choose|j: int| 0 <= j < kws.len() && clash(p, n, kws, j);
        if !positional(p, n, kws[j].0) {
            let i = choose|i: int| 0 <= i < j && kws[i].0 == kws[j].0;
            assert(kws[i].0 != kws[j].0);
        }
        assert(!p.contains(kws[j].0) || positional(p, n, kws[j].0));
    }
    if exists|j: int| 0 <= j < kws.len() && (!p.contains(#[trigger] kws[j].0) || positional(p, n, kws[j].0)) {
        let j = choose|j: int| 0 <= j < kws.len() && (!p.contains(#[trigger] kws[j].0) || positional(p, n, kws[j].0));
        if p.contains(kws[j].0) {
            assert(clash(p, n, kws, j));
        }
    }
}

/// A call of a function without `*args` or `**kwargs`, whose keyword
/// arguments name distinct parameters, fails with `TypeError` exactly when it
/// has more positional arguments than parameters, or a keyword argument
/// names no parameter or one already bound by position, or some parameter
/// gets no value by position, by keyword or by default.
pub proof fn law_binding_fails_iff(
    name: Seq<char>,
    p: Seq<Seq<char>>,
    d: Seq<(Seq<char>, SVal)>,
    na: nat,
    kws: Seq<(Seq<char>, SVal)>,
)
    requires
        forall|i: int, j: int| 0 <= i < j < kws.len() ==> kws[i].0 != kws[j].0,
    ensures
        bind_error(name, p, d, false, false, na, kws) is Some <==> {
            ||| na > p.len()
            ||| exists|j: int| 0 <= j < kws.len() && (!p.contains(#[trigger] kws[j].0) || positional(p, npos(na, p.len()), kws[j].0))
            ||| exists|i: int| 0 <= i < p.len() && unfilled(p, npos(na, p.len()), kws, d, i)
        },
{
    let n = npos(na, p.len());
    lemma_bind_error_cases(name, p, d, na, kws);
    lemma_bad_keyword(p, n, kws);
    let r2 = exists|j: int| 0 <= j < kws.len() && (!p.contains(#[trigger] kws[j].0) || positional(p, n, kws[j].0));
    let r3 = exists|i: int| 0 <= i < p.len() && unfilled(p, n, kws, d, i);
    assert(r3 == any_unfilled(p, n, kws, d));
    assert((bind_error(name, p, d, false, false, na, kws) is Some) == (na > p.len() || r2 || r3));
}

pub open spec fn strs(s: Seq<String>) -> Seq<Seq<char>> {
    s.map_values(|x: String| x@)
}

pub open spec fn opt_str(o: Option<String>) -> Option<Seq<char>> {
    match o {
        Some(s) => Some(s@),
        None => None,
    }
}

/// Whether `k` is one of the strings of `v`.
pub fn contains_str(v: &Vec<String>, k: &String) -> (r: bool)
    ensures
        r == strs(v@).contains(k@),
{
    let mut i: usize = 0;
    while i < v.len()
        invariant
            i <= v.len(),
            forall|j: int| 0 <= j < i ==> v@[j]@ != k@,
        decreases v.len() - i,
    {
        if v[i] == *k {
            assert(strs(v@)[i as int] == k@);
            return true;
        }
        i = i + 1;
    }
    proof {
        if strs(v@).contains(k@) {
            let j = choose|j: int| 0 <= j < strs(v@).len() && strs(v@)[j] == k@;
            assert(v@[j]@ == k@);
        }
    }
    false
}

fn among_first(v: &Vec<String>, n: usize, k: &String) -> (r: bool)
    requires
        n <= v.len(),
    ensures
        r == positional(strs(v@), n as int, k@),
{
    let mut i: usize = 0;
    while i < n
        invariant
            i <= n,
            n <= v.len(),
            forall|j: int| 0 <= j < i ==> v@[j]@ != k@,
        decreases n - i,
    {
        if v[i] == *k {
            assert(strs(v@)[i as int] == k@);
            return true;
        }
        i = i + 1;
    }
    proof {
        if positional(strs(v@), n as int, k@) {
            let j = choose|j: int| 0 <= j < n && strs(v@)[j] == k@;
            assert(v@[j]@ == k@);
        }
    }
    false
}

fn key_before(t: &Table, j: usize, k: &String) -> (r: bool)
    requires
        j <= t.len(),
    ensures
        r == exists|i: int| 0 <= i < j && tview(t@)[i].0 == k@,
{
    proof {
        lemma_tview(t@);
    }
    let mut i: usize = 0;
    while i < j
        invariant
            i <= j,
            j <= t.len(),
            tview(t@).len() == t@.len(),
            forall|x: int| 0 <= x < t.len() ==> #[trigger] tview(t@)[x] == (t@[x].0@, t@[x].1.sv()),
            forall|x: int| 0 <= x < i ==> tview(t@)[x].0 != k@,
        decreases j - i,
    {
        if t[i].0 == *k {
            assert(tview(t@)[i as int].0 == k@);
            return true;
        }
        i = i + 1;
    }
    false
}


/// The number of arguments bound by position.
pub open spec fn npos(na: nat, np: nat) -> int {
    if na < np { na as int } else { np as int }
}

fn positional_part(params: &Vec<String>, args: &Vec<PyValue>, n: usize, vararg: &Option<String>) -> (t: Table)
    requires
        n as int == npos(args.len() as nat, params.len() as nat),
    ensures
        tview(t@) == positional_writes(strs(params@), vals_view(args@), opt_str(*vararg)),
{
    proof {
        lemma_vals_view(args@);
    }
    let ghost pv = strs(params@);
    let ghost av = vals_view(args@);
    let mut t: Table = Vec::new();
    let mut i: usize = 0;
    while i < n
        invariant
            i <= n,
            n <= params.len(),
            n <= args.len(),
            pv == strs(params@),
            av == vals_view(args@),
            av.len() == args.len(),
            forall|x: int| 0 <= x < args.len() ==> #[trigger] av[x] == args@[x].sv(),
            tview(t@) == Seq::new(i as nat, |x: int| (pv[x], av[x])),
        decreases n - i,
    {
        let k = params[i].clone();
        let v = args[i].copy();
        let ghost t0 = t@;
        proof {
            lemma_tview(t0);
            assert(pv[i as int] == params@[i as int]@);
        }
        t.push((k, v));
        proof {
            lemma_tview(t@);
            assert(t@ == t0.push(t@[i as int]));
            assert forall|x: int| 0 <= x <= i implies #[trigger] tview(t@)[x] == (pv[x], av[x]) by {
                if x < i {
                    assert(tview(t0)[x] == Seq::new(i as nat, |y: int| (pv[y], av[y]))[x]);
                    assert(t@[x] == t0[x]);
                }
            }
            assert(tview(t@) =~= Seq::new((i + 1) as nat, |x: int| (pv[x], av[x])));
        }
        i = i + 1;
    }
    match vararg {
        Some(vn) => {
            let mut rest: Vec<PyValue> = Vec::new();
            let mut j: usize = n;
            while j < args.len()
                invariant
                    n <= j <= args.len(),
                    av == vals_view(args@),
                    av.len() == args.len(),
                    forall|x: int| 0 <= x < args.len() ==> #[trigger] av[x] == args@[x].sv(),
                    vals_view(rest@) == av.subrange(n as int, j as int),
                decreases args.len() - j,
            {
                let v = args[j].copy();
                proof {
                    crate::value::lemma_vals_push(rest@, v);
                }
                rest.push(v);
                proof {
                    assert(vals_view(rest@) =~= av.subrange(n as int, j + 1));
                }
                j = j + 1;
            }
            let ghost t0 = tview(t@);
            let tup = PyValue::Tuple(rest);
            t.push((vn.clone(), tup));
            proof {
                lemma_tview(t@);
                assert(tview(t@) =~= t0.push((vn@, SVal::Tuple(av.subrange(n as int, av.len() as int)))));
            }
        },
        None => {},
    }
    t
}

/// Runs through the keyword arguments: the first that clashes, or else the
/// ones naming a parameter appended to `early`, the others to `rest`.
fn keyword_part(params: &Vec<String>, n: usize, kwargs: &Table, early: &mut Table, rest: &mut Table) -> (r: Option<usize>)
    requires
        n <= params.len(),
    ensures
        match r {
            Some(j) => j < kwargs.len() && clash(strs(params@), n as int, tview(kwargs@), j as int)
                && forall|i: int| 0 <= i < j ==> !clash(strs(params@), n as int, tview(kwargs@), i),
            None => !any_clash(strs(params@), n as int, tview(kwargs@))
                && tview(final(early)@) == tview(old(early)@) + kw_split(strs(params@), tview(kwargs@), true)
                && tview(final(rest)@) == tview(old(rest)@) + kw_split(strs(params@), tview(kwargs@), false),
        },
{
    proof {
        lemma_tview(kwargs@);
    }
    let ghost pv = strs(params@);
    let ghost kv = tview(kwargs@);
    let ghost e0 = tview(early@);
    let ghost r0 = tview(rest@);
    let mut j: usize = 0;
    while j < kwargs.len()
        invariant
            j <= kwargs.len(),
            n <= params.len(),
            pv == strs(params@),
            kv == tview(kwargs@),
            kv.len() == kwargs.len(),
            forall|x: int| 0 <= x < kwargs.len() ==> #[trigger] kv[x] == (kwargs@[x].0@, kwargs@[x].1.sv()),
            forall|i: int| 0 <= i < j ==> !clash(pv, n as int, kv, i),
            tview(early@) == e0 + kw_split(pv, kv.subrange(0, j as int), true),
            tview(rest@) == r0 + kw_split(pv, kv.subrange(0, j as int), false),
        decreases kwargs.len() - j,
    {
        let k = &kwargs[j].0;
        proof {
            assert(kv.subrange(0, j + 1).drop_last() =~= kv.subrange(0, j as int));
            assert(kv.subrange(0, j + 1).last() == kv[j as int]);
        }
        let ghost e1 = tview(early@);
        let ghost r1 = tview(rest@);
        if contains_str(params, k) {
            if among_first(params, n, k) || key_before(kwargs, j, k) {
                return Some(j);
            }
            early.push((k.clone(), kwargs[j].1.copy()));
            proof {
                lemma_tview(early@);
                assert(tview(early@) =~= e1.push(kv[j as int]));
                assert(tview(rest@) =~= r1);
            }
        } else {
            rest.push((k.clone(), kwargs[j].1.copy()));
            proof {
                lemma_tview(rest@);
                assert(tview(rest@) =~= r1.push(kv[j as int]));
            }
        }
        j = j + 1;
    }
    proof {
        assert(kv.subrange(0, kwargs.len() as int) =~= kv);
    }
    None
}

/// The defaults of the parameters given nothing else; the first parameter
/// that has no default either, if there is one.
fn default_part(params: &Vec<String>, n: usize, kwargs: &Table, defaults: &Table) -> (r: Result<Table, usize>)
    requires
        n <= params.len(),
    ensures
        match r {
            Ok(t) => !any_unfilled(strs(params@), n as int, tview(kwargs@), tview(defaults@))
                && tview(t@) == default_writes(strs(params@), n as int, tview(kwargs@), tview(defaults@), params.len() as int),
            Err(i) => i < params.len() && unfilled(strs(params@), n as int, tview(kwargs@), tview(defaults@), i as int)
                && forall|h: int| 0 <= h < i ==> !unfilled(strs(params@), n as int, tview(kwargs@), tview(defaults@), h),
        },
{
    proof {
        lemma_tview(kwargs@);
    }
    let ghost pv = strs(params@);
    let ghost kv = tview(kwargs@);
    let ghost dv = tview(defaults@);
    let mut t: Table = Vec::new();
    let mut i: usize = 0;
    while i < params.len()
        invariant
            i <= params.len(),
            n <= params.len(),
            pv == strs(params@),
            kv == tview(kwargs@),
            dv == tview(defaults@),
            kv.len() == kwargs.len(),
            forall|h: int| 0 <= h < i ==> !unfilled(pv, n as int, kv, dv, h),
            tview(t@) == default_writes(pv, n as int, kv, dv, i as int),
        decreases params.len() - i,
    {
        let q = &params[i];
        assert(pv[i as int] == q@);
        let pos = among_first(params, n, q);
        let kw = key_before(kwargs, kwargs.len(), q);
        let ghost t0 = tview(t@);
        if !pos && !kw {
            match tbl_get(defaults, q) {
                Some(v) => {
                    t.push((q.clone(), v));
                    proof {
                        lemma_tview(t@);
                        assert(tview(t@) =~= t0.push((q@, tfind(dv, q@)->0)));
                    }
                },
                None => {
                    return Err(i);
                },
            }
        }
        i = i + 1;
    }
    Ok(t)
}

/// What a call of function `name` binds, or the `TypeError` it fails with.
pub fn bind_arguments(
    name: &String,
    params: &Vec<String>,
    defaults: &Table,
    vararg: &Option<String>,
    kwarg: &Option<String>,
    args: &Vec<PyValue>,
    kwargs: &Table,
) -> (r: Result<Binding, PyValue>)
    ensures
        match r {
            Err(e) => bind_error(name@, strs(params@), tview(defaults@), vararg is Some, kwarg is Some, args.len() as nat, tview(kwargs@))
                matches Some(m) && e.sv() == exc_sv("TypeError"@, m),
            Ok(b) => {
                &&& bind_error(name@, strs(params@), tview(defaults@), vararg is Some, kwarg is Some, args.len() as nat, tview(kwargs@)) is None
                &&& tview(b.early@) == positional_writes(strs(params@), vals_view(args@), opt_str(*vararg))
                    + kw_split(strs(params@), tview(kwargs@), true)
                &&& match b.kw_dict {
                    Some((dn, t)) => opt_str(*kwarg) == Some(dn@) && tview(t@) == kw_split(strs(params@), tview(kwargs@), false),
                    None => kwarg is None,
                }
                &&& tview(b.late@) == default_writes(strs(params@), npos(args.len() as nat, params.len() as nat),
                    tview(kwargs@), tview(defaults@), params.len() as int)
            },
        },
{
    let ghost pv = strs(params@);
    let ghost kv = tview(kwargs@);
    let ghost dv = tview(defaults@);
    let n = if args.len() < params.len() { args.len() } else { params.len() };
    if vararg.is_none() && args.len() > params.len() {
        let mut m = name.clone();
        m.append("() takes ");
        push_dec(&mut m, params.len());
        m.append(" positional arguments but ");
        push_dec(&mut m, args.len());
        m.append(" were given");
        proof {
            assert(m@ =~= msg_takes(name@, params.len() as nat, args.len() as nat));
        }
        return Err(py_err_string("TypeError", m));
    }
    let mut early = positional_part(params, args, n, vararg);
    let mut rest: Table = Vec::new();
    let ghost e0 = tview(early@);
    match keyword_part(params, n, kwargs, &mut early, &mut rest) {
        Some(j) => {
            proof {
                lemma_tview(kwargs@);
                let f = first_clash(pv, n as int, kv);
                assert(any_clash(pv, n as int, kv));
                assert(f == j as int);
            }
            let mut m = name.clone();
            m.append("() got multiple values for argument '");
            m.append(kwargs[j].0.as_str());
            m.append("'");
            proof {
                assert(m@ =~= msg_multiple(name@, kv[j as int].0));
            }
            return Err(py_err_string("TypeError", m));
        },
        None => {},
    }
    proof {
        lemma_tview(rest@);
        assert(tview(rest@) =~= kw_split(pv, kv, false));
        assert(tview(early@) == e0 + kw_split(pv, kv, true));
    }
    let kw_dict = match kwarg {
        Some(dn) => Some((dn.clone(), rest)),
        None => {
            if rest.len() > 0 {
                let mut m = name.clone();
                m.append("() got an unexpected keyword argument '");
                m.append(rest[0].0.as_str());
                m.append("'");
                proof {
                    assert(m@ =~= msg_unexpected(name@, kw_split(pv, kv, false)[0].0));
                }
                return Err(py_err_string("TypeError", m));
            }
            None
        },
    };
    match default_part(params, n, kwargs, defaults) {
        Ok(late) => Ok(Binding { early, kw_dict, late }),
        Err(i) => {
            proof {
                let f = first_unfilled(pv, n as int, kv, dv);
                assert(any_unfilled(pv, n as int, kv, dv));
                assert(f == i as int);
            }
            let mut m = name.clone();
            m.append("() missing required argument: '");
            m.append(params[i].as_str());
            m.append("'");
            proof {
                assert(m@ =~= msg_missing(name@, pv[i as int]));
            }
            Err(py_err_string("TypeError", m))
        },
    }
}

/// A table after binding each of `w`, in order.
pub open spec fn tputs(t: Seq<(Seq<char>, SVal)>, w: Seq<(Seq<char>, SVal)>) -> Seq<(Seq<char>, SVal)>
    decreases w.len(),
{
    if w.len() == 0 {
        t
    } else {
        tput(tputs(t, w.drop_last()), w.last().0, w.last().1)
    }
}

/// The bindings a call's scope receives, given the index its `**kwargs` dict gets.
pub open spec fn scope_writes(b: Binding, dict: usize) -> Seq<(Seq<char>, SVal)> {
    tview(b.early@) + match b.kw_dict {
        Some((n, _)) => seq![(n@, SVal::Dict(dict))],
        None => Seq::empty(),
    } + tview(b.late@)
}

fn set_all(heap: &mut Heap, e: usize, w: Table)
    requires
        old(heap).wf(),
        e < old(heap)@.envs.len(),
    ensures
        final(heap).wf(),
        final(heap)@ == (HeapView {
            envs: old(heap)@.envs.update(e as int, FrameView {
                parent: old(heap)@.envs[e as int].parent,
                vars: tputs(old(heap)@.envs[e as int].vars, tview(w@)),
            }),
            ..old(heap)@
        }),
{
    proof {
        lemma_tview(w@);
    }
    let ghost wv = tview(w@);
    let ghost h0 = heap@;
    let wl = w.len();
    assert(wv.len() == wl);
    let mut i: usize = 0;
    let mut w = w;
    let mut items: Vec<(String, PyValue)> = Vec::new();
    // Take the entries out in order, so that each can be moved into the scope.
    while w.len() > 0
        invariant
            items@.len() + w@.len() == wv.len(),
            forall|x: int| 0 <= x < w@.len() ==> (#[trigger] w@[x]).0@ == wv[x].0 && w@[x].1.sv() == wv[x].1,
            forall|x: int| 0 <= x < items@.len() ==> (#[trigger] items@[x]).0@ == wv[wv.len() - 1 - x].0
                && items@[x].1.sv() == wv[wv.len() - 1 - x].1,
        decreases w.len(),
    {
        let x = w.pop().unwrap();
        items.push(x);
        assert(items@[items@.len() - 1] == x);
    }
    proof {
        assert(wv.subrange(0, 0) =~= Seq::<(Seq<char>, SVal)>::empty());
        assert(h0.envs.update(e as int, FrameView {
            parent: h0.envs[e as int].parent,
            vars: tputs(h0.envs[e as int].vars, wv.subrange(0, 0)),
        }) =~= h0.envs);
    }
    while items.len() > 0
        invariant
            heap.wf(),
            e < heap@.envs.len(),
            e < h0.envs.len(),
            wv.len() <= usize::MAX,
            i as int + items@.len() == wv.len(),
            forall|x: int| 0 <= x < items@.len() ==> (#[trigger] items@[x]).0@ == wv[wv.len() - 1 - x].0
                && items@[x].1.sv() == wv[wv.len() - 1 - x].1,
            heap@ == (HeapView {
                envs: h0.envs.update(e as int, FrameView {
                    parent: h0.envs[e as int].parent,
                    vars: tputs(h0.envs[e as int].vars, wv.subrange(0, i as int)),
                }),
                ..h0
            }),
        decreases items.len(),
    {
        let ghost il = items@.len();
        let ghost top = items@[il - 1];
        let (k, v) = items.pop().unwrap();
        proof {
            assert(k@ == top.0@ && v.sv() == top.1.sv());
            assert(wv.len() - 1 - (il - 1) == i as int);
            assert(k@ == wv[i as int].0 && v.sv() == wv[i as int].1);
            assert(wv.subrange(0, i + 1).drop_last() =~= wv.subrange(0, i as int));
            assert(wv.subrange(0, i + 1).last() == wv[i as int]);
        }
        heap.env_set(e, k, v);
        proof {
            assert(heap@.envs =~= h0.envs.update(e as int, FrameView {
                parent: h0.envs[e as int].parent,
                vars: tputs(h0.envs[e as int].vars, wv.subrange(0, i + 1)),
            }));
        }
        i = i + 1;
    }
    proof {
        assert(wv.subrange(0, wv.len() as int) =~= wv);
    }
}

/// Opens the scope of a call inside `closure` and binds in it what `b`
/// says, in order; the `**kwargs` dict, if any, is made first.
pub fn open_call_scope(heap: &mut Heap, closure: usize, b: Binding) -> (e: usize)
    requires
        old(heap).wf(),
    ensures
        final(heap).wf(),
        e == old(heap)@.envs.len(),
        final(heap)@.envs.len() == e + 1,
        forall|x: int| 0 <= x < e ==> final(heap)@.envs[x] == old(heap)@.envs[x],
        final(heap)@.envs[e as int].parent == (if closure < old(heap)@.envs.len() { Some(closure) } else { None }),
        final(heap)@.envs[e as int].vars == tputs(Seq::empty(), scope_writes(b, old(heap)@.dicts.len() as usize)),
        final(heap)@.dicts == match b.kw_dict {
            Some((_, t)) => old(heap)@.dicts.push(tview(t@)),
            None => old(heap)@.dicts,
        },
        final(heap)@.lists == old(heap)@.lists,
        final(heap)@.classes == old(heap)@.classes,
        final(heap)@.instances == old(heap)@.instances,
        final(heap)@.funcs == old(heap)@.funcs,
{
    let ghost bb = b;
    let ghost d0 = heap@.dicts.len() as usize;
    let e = heap.env_new(Some(closure));
    let Binding { early, kw_dict, late } = b;
    let mut w: Table = early;
    let ghost we = tview(w@);
    match kw_dict {
        Some((n, t)) => {
            let d = heap.dict_new(t);
            w.push((n, PyValue::Dict(d)));
        },
        None => {},
    }
    let mut late = late;
    let ghost wl = tview(late@);
    proof {
        lemma_tview(w@);
        lemma_tview(late@);
    }
    w.append(&mut late);
    proof {
        lemma_tview(w@);
        assert(tview(w@) =~= scope_writes(bb, d0));
    }
    set_all(heap, e, w);
    e
}

} // verus!
