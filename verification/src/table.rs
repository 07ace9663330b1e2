//! Tables from names to values: the variables of a scope, the entries of a
//! dict, the methods of a class, the attributes of an instance.
//!
//! A table is a sequence of entries. Lookup finds the last entry with the
//! key; writing a key replaces that entry, or appends one when there is none,
//! so a table built only by writes holds each key once, in the order the keys
//! were first written.
use vstd::prelude::*;
use crate::value::{PyValue, SVal, opt_sv};

verus! {

pub type Table = Vec<(String, PyValue)>;

/// The mathematical form of a table.
pub open spec fn tview(t: Seq<(String, PyValue)>) -> Seq<(Seq<char>, SVal)> {
    t.map_values(|e: (String, PyValue)| (e.0@, e.1.sv()))
}

/// The last index below `n` whose key is `k`.
pub open spec fn tpos_upto(t: Seq<(Seq<char>, SVal)>, k: Seq<char>, n: int) -> Option<int>
    decreases n,
{
    if n <= 0 {
        None
    } else if t[n - 1].0 == k {
        Some(n - 1)
    } else {
        tpos_upto(t, k, n - 1)
    }
}

/// The index of the entry for `k`, if there is one.
pub open spec fn tpos(t: Seq<(Seq<char>, SVal)>, k: Seq<char>) -> Option<int> {
    tpos_upto(t, k, t.len() as int)
}

/// The value bound to `k`, if any.
pub open spec fn tfind(t: Seq<(Seq<char>, SVal)>, k: Seq<char>) -> Option<SVal> {
    match tpos(t, k) {
        Some(i) => Some(t[i].1),
        None => None,
    }
}

/// The table after binding `k` to `v`.
pub open spec fn tput(t: Seq<(Seq<char>, SVal)>, k: Seq<char>, v: SVal) -> Seq<(Seq<char>, SVal)> {
    match tpos(t, k) {
        Some(i) => t.update(i, (k, v)),
        None => t.push((k, v)),
    }
}

pub proof fn lemma_tpos_upto_range(t: Seq<(Seq<char>, SVal)>, k: Seq<char>, n: int)
    requires
        n <= t.len(),
    ensures
        tpos_upto(t, k, n) matches Some(i) ==> 0 <= i < n && t[i].0 == k,
        tpos_upto(t, k, n) is None ==> forall|j: int| 0 <= j < n ==> t[j].0 != k,
    decreases n,
{
    if n > 0 {
        lemma_tpos_upto_range(t, k, n - 1);
    }
}

proof fn lemma_tpos_upto_push(t: Seq<(Seq<char>, SVal)>, x: (Seq<char>, SVal), k: Seq<char>, n: int)
    requires
        n <= t.len(),
    ensures
        tpos_upto(t.push(x), k, n) == tpos_upto(t, k, n),
    decreases n,
{
    if n > 0 {
        lemma_tpos_upto_push(t, x, k, n - 1);
    }
}

proof fn lemma_tpos_upto_same_keys(t: Seq<(Seq<char>, SVal)>, u: Seq<(Seq<char>, SVal)>, k: Seq<char>, n: int)
    requires
        n <= t.len(),
        n <= u.len(),
        forall|j: int| 0 <= j < n ==> t[j].0 == u[j].0,
    ensures
        tpos_upto(t, k, n) == tpos_upto(u, k, n),
    decreases n,
{
    if n > 0 {
        lemma_tpos_upto_same_keys(t, u, k, n - 1);
    }
}

/// Binding `k` to `v` makes `k` find `v`, and leaves every other key as it was.
pub proof fn lemma_tput(t: Seq<(Seq<char>, SVal)>, k: Seq<char>, v: SVal, k2: Seq<char>)
    ensures
        tfind(tput(t, k, v), k2) == (if k2 == k { Some(v) } else { tfind(t, k2) }),
{
    lemma_tpos_upto_range(t, k, t.len() as int);
    lemma_tpos_upto_range(t, k2, t.len() as int);
    match tpos(t, k) {
        Some(i) => {
            let u = t.update(i, (k, v));
            lemma_tpos_upto_same_keys(t, u, k2, t.len() as int);
            lemma_tpos_upto_range(u, k2, u.len() as int);
        },
        None => {
            let u = t.push((k, v));
            lemma_tpos_upto_push(t, (k, v), k2, t.len() as int);
            assert(u[t.len() as int] == (k, v));
        },
    }
}

/// Binding a key leaves the number of entries as it was when the key was
/// bound already, and adds one when it was not.
/// Whether no key occurs twice in the table.
pub open spec fn keys_distinct(t: Seq<(Seq<char>, SVal)>) -> bool {
    forall|i: int, j: int| 0 <= i < j < t.len() ==> t[i].0 != t[j].0
}

/// In a table whose keys are distinct, the key of each entry finds that
/// entry.
pub proof fn lemma_tfind_own_key(t: Seq<(Seq<char>, SVal)>, i: int)
    requires
        keys_distinct(t),
        0 <= i < t.len(),
    ensures
        tpos(t, t[i].0) == Some(i),
        tfind(t, t[i].0) == Some(t[i].1),
{
    lemma_tpos_upto_range(t, t[i].0, t.len() as int);
    match tpos(t, t[i].0) {
        Some(j) => {
            if j != i {
                if j < i {
                    assert(t[j].0 != t[i].0);
                } else {
                    assert(t[i].0 != t[j].0);
                }
            }
        },
        None => {},
    }
}

/// Writing a key keeps the keys of a table distinct: a table built by writes
/// holds each key once.
pub proof fn law_writes_keep_keys_distinct(t: Seq<(Seq<char>, SVal)>, k: Seq<char>, v: SVal)
    requires
        keys_distinct(t),
    ensures
        keys_distinct(tput(t, k, v)),
{
    lemma_tpos_upto_range(t, k, t.len() as int);
    let u = tput(t, k, v);
    match tpos(t, k) {
        Some(p) => {
            assert forall|i: int, j: int| 0 <= i < j < u.len() implies u[i].0 != u[j].0 by {
                if i == p {
                    assert(u[i].0 == t[i].0);
                } else if j == p {
                    assert(u[j].0 == t[j].0);
                }
                assert(u[i].0 == t[i].0 && u[j].0 == t[j].0);
            }
        },
        None => {
            assert forall|i: int, j: int| 0 <= i < j < u.len() implies u[i].0 != u[j].0 by {
                if j == t.len() {
                    assert(t[i].0 != k);
                } else {
                    assert(u[i] == t[i] && u[j] == t[j]);
                }
            }
        },
    }
}

pub proof fn lemma_tput_len(t: Seq<(Seq<char>, SVal)>, k: Seq<char>, v: SVal)
    ensures
        tput(t, k, v).len() == (if tfind(t, k) is Some { t.len() } else { t.len() + 1 }),
{
    lemma_tpos_upto_range(t, k, t.len() as int);
}

pub proof fn lemma_tview(t: Seq<(String, PyValue)>)
    ensures
        tview(t).len() == t.len(),
        forall|i: int| 0 <= i < t.len() ==> #[trigger] tview(t)[i] == (t[i].0@, t[i].1.sv()),
{
}

/// The index of the entry for `k`.
pub fn tbl_pos(t: &Table, k: &String) -> (r: Option<usize>)
    ensures
        match r {
            Some(i) => i < t.len() && tpos(tview(t@), k@) == Some(i as int),
            None => tpos(tview(t@), k@) is None,
        },
{
    proof {
        lemma_tview(t@);
    }
    let mut i: usize = t.len();
    while i > 0
        invariant
            i <= t.len(),
            tview(t@).len() == t@.len(),
            forall|j: int| 0 <= j < t.len() ==> #[trigger] tview(t@)[j] == (t@[j].0@, t@[j].1.sv()),
            tpos(tview(t@), k@) == tpos_upto(tview(t@), k@, i as int),
        decreases i,
    {
        if t[i - 1].0 == *k {
            return Some(i - 1);
        }
        i = i - 1;
    }
    None
}

/// The value bound to `k`, copied.
pub fn tbl_get(t: &Table, k: &String) -> (r: Option<PyValue>)
    ensures
        opt_sv(r) == tfind(tview(t@), k@),
{
    proof {
        lemma_tview(t@);
    }
    match tbl_pos(t, k) {
        Some(i) => Some(t[i].1.copy()),
        None => None,
    }
}

/// Binds `k` to `v`.
pub fn tbl_put(t: &mut Table, k: String, v: PyValue)
    ensures
        tview(final(t)@) == tput(tview(old(t)@), k@, v.sv()),
{
    proof {
        lemma_tview(t@);
    }
    let ghost kv = k@;
    let ghost vv = v.sv();
    match tbl_pos(t, &k) {
        Some(i) => {
            t.set(i, (k, v));
            proof {
                lemma_tview(t@);
                assert(tview(t@) =~= tview(old(t)@).update(i as int, (kv, vv)));
            }
        },
        None => {
            t.push((k, v));
            proof {
                lemma_tview(t@);
                assert(tview(t@) =~= tview(old(t)@).push((kv, vv)));
            }
        },
    }
}

/// A copy of every entry of `t`, in order.
pub fn tbl_copy(t: &Table) -> (r: Table)
    ensures
        tview(r@) == tview(t@),
{
    proof {
        lemma_tview(t@);
    }
    let mut r: Table = Vec::new();
    let mut i: usize = 0;
    while i < t.len()
        invariant
            i <= t.len(),
            r.len() == i,
            tview(t@).len() == t@.len(),
            forall|j: int| 0 <= j < t.len() ==> #[trigger] tview(t@)[j] == (t@[j].0@, t@[j].1.sv()),
            forall|j: int| 0 <= j < i ==> (#[trigger] r@[j]).0@ == t@[j].0@ && r@[j].1.sv() == t@[j].1.sv(),
        decreases t.len() - i,
    {
        let k = t[i].0.clone();
        let v = t[i].1.copy();
        r.push((k, v));
        i = i + 1;
    }
    proof {
        lemma_tview(r@);
        assert(tview(r@) =~= tview(t@));
    }
    r
}

} // verus!
