//! `json.dumps`: the JSON text of a value. Floats are left as pieces of
//! their own, for the caller to write out.
use vstd::prelude::*;
use crate::heap::{Heap, HeapView};
use crate::table::tview;
use crate::text::{chars_of, push_char};
use crate::value::{exc_sv, int_text, int_to_string, py_err_val, vals_view, PyValue, SVal};

verus! {

/// A piece of text: text, or a float, a builtin function or an open file,
/// whose text the caller writes out.
pub enum Piece {
    Text(String),
    Float(u64),
    Builtin(usize),
    File(usize),
}

/// The mathematical form of a [`Piece`].
pub enum SPiece {
    Text(Seq<char>),
    Float(u64),
    Builtin(usize),
    File(usize),
}

impl Piece {
    pub open spec fn sv(&self) -> SPiece {
        match self {
            Piece::Text(s) => SPiece::Text(s@),
            Piece::Float(b) => SPiece::Float(*b),
            Piece::Builtin(b) => SPiece::Builtin(*b),
            Piece::File(f) => SPiece::File(*f),
        }
    }
}

pub open spec fn pieces_view(v: Seq<Piece>) -> Seq<SPiece> {
    v.map_values(|p: Piece| p.sv())
}

pub open spec fn text(s: Seq<char>) -> Seq<SPiece> {
    seq![SPiece::Text(s)]
}

/// A string with each `"` preceded by a backslash.
pub open spec fn escape(s: Seq<char>) -> Seq<char>
    decreases s.len(),
{
    if s.len() == 0 {
        Seq::empty()
    } else {
        escape(s.drop_last()) + if s.last() == '"' { seq!['\\', '"'] } else { seq![s.last()] }
    }
}

/// The pieces of each item, or the first failure among them, in order.
pub open spec fn collect(ps: Seq<Option<Result<Seq<SPiece>, SVal>>>) -> Option<Result<Seq<Seq<SPiece>>, SVal>>
    decreases ps.len(),
{
    if ps.len() == 0 {
        Some(Ok(Seq::empty()))
    } else {
        match collect(ps.drop_last()) {
            Some(Ok(xs)) => match ps.last() {
                Some(Ok(x)) => Some(Ok(xs.push(x))),
                Some(Err(e)) => Some(Err(e)),
                None => None,
            },
            other => other,
        }
    }
}

/// The items' pieces separated by `, `.
pub open spec fn join(parts: Seq<Seq<SPiece>>) -> Seq<SPiece>
    decreases parts.len(),
{
    if parts.len() == 0 {
        Seq::empty()
    } else if parts.len() == 1 {
        parts[0]
    } else {
        join(parts.drop_last()) + text(", "@) + parts.last()
    }
}

/// `[` and `]` round the items, or the failure.
pub open spec fn bracket(open: Seq<char>, r: Option<Result<Seq<Seq<SPiece>>, SVal>>, close: Seq<char>) -> Option<Result<Seq<SPiece>, SVal>> {
    match r {
        Some(Ok(parts)) => Some(Ok(text(open) + join(parts) + text(close))),
        Some(Err(e)) => Some(Err(e)),
        None => None,
    }
}

pub open spec fn entry_parts(es: Seq<(Seq<char>, SVal)>, ps: Seq<Seq<SPiece>>) -> Seq<Seq<SPiece>> {
    Seq::new(ps.len(), |i: int| text(seq!['"'] + es[i].0 + "\": "@) + ps[i])
}

/// The JSON text of each of `vs`.
pub open spec fn json_all(h: HeapView, vs: Seq<SVal>, fuel: nat) -> Seq<Option<Result<Seq<SPiece>, SVal>>>
    decreases fuel, 1nat,
{
    Seq::new(vs.len(), |i: int| json_val(h, vs[i], fuel))
}

pub open spec fn entry_values(es: Seq<(Seq<char>, SVal)>) -> Seq<SVal> {
    es.map_values(|e: (Seq<char>, SVal)| e.1)
}

/// The JSON text of `v`, nesting at most `fuel` deep (`None` past that).
pub open spec fn json_val(h: HeapView, v: SVal, fuel: nat) -> Option<Result<Seq<SPiece>, SVal>>
    decreases fuel, 0nat,
{
    if fuel == 0 {
        None
    } else {
        match v {
            SVal::NoneVal => Some(Ok(text("null"@))),
            SVal::Bool(b) => Some(Ok(text(if b { "true"@ } else { "false"@ }))),
            SVal::Int(i) => Some(Ok(text(int_text(i)))),
            SVal::Float(b) => Some(Ok(seq![SPiece::Float(b)])),
            SVal::Str(s) => Some(Ok(text(seq!['"'] + escape(s) + seq!['"']))),
            SVal::List(l) => {
                let items = if l < h.lists.len() { h.lists[l as int] } else { Seq::empty() };
                bracket("["@, collect(json_all(h, items, (fuel - 1) as nat)), "]"@)
            },
            SVal::Tuple(items) => bracket("["@, collect(json_all(h, items, (fuel - 1) as nat)), "]"@),
            SVal::Dict(d) => {
                let es = if d < h.dicts.len() { h.dicts[d as int] } else { Seq::empty() };
                match collect(json_all(h, entry_values(es), (fuel - 1) as nat)) {
                    Some(Ok(ps)) => Some(Ok(text("{"@) + join(entry_parts(es, ps)) + text("}"@))),
                    Some(Err(e)) => Some(Err(e)),
                    None => None,
                }
            },
            _ => Some(Err(exc_sv("TypeError"@, "Object of this type is not JSON serializable"@))),
        }
    }
}

pub(crate) proof fn lemma_collect_ok(ps: Seq<Option<Result<Seq<SPiece>, SVal>>>, n: int)
    requires
        0 <= n <= ps.len(),
        forall|j: int| 0 <= j < n ==> (#[trigger] ps[j]) is Some && ps[j]->0 is Ok,
    ensures
        collect(ps.take(n)) == Some(Ok::<Seq<Seq<SPiece>>, SVal>(Seq::new(n as nat, |j: int| ps[j]->0->Ok_0))),
    decreases n,
{
    if n > 0 {
        lemma_collect_ok(ps, n - 1);
        assert(ps.take(n).drop_last() =~= ps.take(n - 1));
        assert(Seq::new((n - 1) as nat, |j: int| ps[j]->0->Ok_0).push(ps[n - 1]->0->Ok_0) =~= Seq::new(n as nat, |j: int| ps[j]->0->Ok_0));
    } else {
        assert(ps.take(0) =~= Seq::<Option<Result<Seq<SPiece>, SVal>>>::empty());
        assert(Seq::new(0, |j: int| ps[j]->0->Ok_0) =~= Seq::<Seq<SPiece>>::empty());
    }
}

pub(crate) proof fn lemma_collect_stop(ps: Seq<Option<Result<Seq<SPiece>, SVal>>>, i: int, n: int)
    requires
        0 <= i < n <= ps.len(),
        forall|j: int| 0 <= j < i ==> (#[trigger] ps[j]) is Some && ps[j]->0 is Ok,
        !(ps[i] is Some && ps[i]->0 is Ok),
    ensures
        collect(ps.take(n)) == match ps[i] {
            Some(Err(e)) => Some(Err::<Seq<Seq<SPiece>>, SVal>(e)),
            _ => None,
        },
    decreases n,
{
    assert(ps.take(n).drop_last() =~= ps.take(n - 1));
    if n - 1 > i {
        lemma_collect_stop(ps, i, n - 1);
    } else {
        lemma_collect_ok(ps, i);
        assert(ps.take(n).last() == ps[i]);
    }
}

pub(crate) fn escaped(s: &String) -> (r: String)
    ensures
        r@ == escape(s@),
{
    let cs = chars_of(s.as_str());
    let mut r = String::new();
    let mut i: usize = 0;
    proof {
        assert(cs@.take(0) =~= Seq::<char>::empty());
    }
    while i < cs.len()
        invariant
            i <= cs.len(),
            r@ == escape(cs@.take(i as int)),
        decreases cs.len() - i,
    {
        let c = cs[i];
        proof {
            assert(cs@.take(i + 1).drop_last() =~= cs@.take(i as int));
        }
        if c == '"' {
            push_char(&mut r, '\\');
            push_char(&mut r, '"');
        } else {
            push_char(&mut r, c);
        }
        proof {
            assert(r@ =~= escape(cs@.take(i + 1)));
        }
        i = i + 1;
    }
    proof {
        assert(cs@.take(cs.len() as int) =~= cs@);
    }
    r
}

pub(crate) fn text_piece(s: &str) -> (r: Vec<Piece>)
    ensures
        pieces_view(r@) == text(s@),
{
    let r = vec![Piece::Text(s.to_owned())];
    proof {
        assert(pieces_view(r@) =~= text(s@));
    }
    r
}

/// Appends `b` to `a`.
pub(crate) fn append_pieces(a: &mut Vec<Piece>, b: Vec<Piece>)
    ensures
        pieces_view(final(a)@) == pieces_view(old(a)@) + pieces_view(b@),
{
    let mut b = b;
    let ghost a0 = a@;
    let ghost b0 = b@;
    a.append(&mut b);
    proof {
        assert(pieces_view(a@) =~= pieces_view(a0) + pieces_view(b0));
    }
}

/// The parts joined by `, `, between `open` and `close`.
pub(crate) fn bracketed(open: &str, parts: Vec<Vec<Piece>>, close: &str) -> (r: Vec<Piece>)
    ensures
        pieces_view(r@) == text(open@) + join(parts@.map_values(|p: Vec<Piece>| pieces_view(p@))) + text(close@),
{
    let ghost pv = parts@.map_values(|p: Vec<Piece>| pieces_view(p@));
    let mut r = text_piece(open);
    let ghost r0 = pieces_view(r@);
    let mut i: usize = 0;
    let mut parts = parts;
    let n = parts.len();
    let mut taken: Vec<Vec<Piece>> = Vec::new();
    while parts.len() > 0
        invariant
            taken@.len() + parts@.len() == n,
            forall|j: int| 0 <= j < taken@.len() ==> pieces_view((#[trigger] taken@[j])@) == pv[n - 1 - j],
            forall|j: int| 0 <= j < parts@.len() ==> pieces_view((#[trigger] parts@[j])@) == pv[j],
            pv.len() == n,
        decreases parts.len(),
    {
        let p = parts.pop().unwrap();
        taken.push(p);
    }
    proof {
        assert(join(pv.take(0)) =~= Seq::<SPiece>::empty());
        assert(pieces_view(r@) =~= r0 + join(pv.take(0)));
    }
    while i < n
        invariant
            i <= n,
            taken@.len() == n - i,
            forall|j: int| 0 <= j < taken@.len() ==> pieces_view((#[trigger] taken@[j])@) == pv[n - 1 - j],
            pv.len() == n,
            r0 == text(open@),
            pieces_view(r@) == r0 + join(pv.take(i as int)),
        decreases n - i,
    {
        let p = taken.pop().unwrap();
        proof {
            assert(pieces_view(p@) == pv[i as int]);
            assert(pv.take(i + 1).drop_last() =~= pv.take(i as int));
            assert(pv.take(i + 1).last() == pv[i as int]);
        }
        if i > 0 {
            append_pieces(&mut r, text_piece(", "));
        }
        append_pieces(&mut r, p);
        proof {
            if i == 0 {
                assert(pv.take(1) =~= seq![pv[0]]);
                assert(join(pv.take(0)) =~= Seq::<SPiece>::empty());
            }
            assert(pieces_view(r@) =~= r0 + join(pv.take(i + 1)));
        }
        i = i + 1;
    }
    append_pieces(&mut r, text_piece(close));
    proof {
        assert(pv.take(n as int) =~= pv);
    }
    r
}

/// The pieces of each value, or the first failure, nesting at most `fuel` deep.
fn json_items(heap: &Heap, items: &Vec<PyValue>, fuel: u64) -> (r: Option<Result<Vec<Vec<Piece>>, PyValue>>)
    requires
        heap.wf(),
    ensures
        ({
            let ps = json_all(heap@, vals_view(items@), fuel as nat);
            match r {
                Some(Ok(parts)) => parts@.len() == items@.len()
                    && collect(ps) == Some(Ok::<Seq<Seq<SPiece>>, SVal>(parts@.map_values(|p: Vec<Piece>| pieces_view(p@)))),
                Some(Err(e)) => collect(ps) == Some(Err::<Seq<Seq<SPiece>>, SVal>(e.sv())),
                None => collect(ps) is None,
            }
        }),
    decreases fuel, 1nat,
{
    let ghost ps = json_all(heap@, vals_view(items@), fuel as nat);
    proof {
        crate::machine::lemma_vals_index(items@);
    }
    let mut parts: Vec<Vec<Piece>> = Vec::new();
    let mut i: usize = 0;
    while i < items.len()
        invariant
            i <= items.len(),
            ps == json_all(heap@, vals_view(items@), fuel as nat),
            ps.len() == items@.len(),
            forall|j: int| 0 <= j < items@.len() ==> #[trigger] ps[j] == json_val(heap@, items@[j].sv(), fuel as nat),
            heap.wf(),
            parts@.len() == i,
            forall|j: int| 0 <= j < i ==> (#[trigger] ps[j]) is Some && ps[j]->0 is Ok
                && pieces_view(parts@[j]@) == ps[j]->0->Ok_0,
        decreases items.len() - i,
    {
        match json_value(heap, &items[i], fuel) {
            Some(Ok(p)) => {
                parts.push(p);
            },
            Some(Err(e)) => {
                proof {
                    lemma_collect_stop(ps, i as int, ps.len() as int);
                    assert(ps.take(ps.len() as int) =~= ps);
                }
                return Some(Err(e));
            },
            None => {
                proof {
                    lemma_collect_stop(ps, i as int, ps.len() as int);
                    assert(ps.take(ps.len() as int) =~= ps);
                }
                return None;
            },
        }
        i = i + 1;
    }
    proof {
        lemma_collect_ok(ps, ps.len() as int);
        assert(ps.take(ps.len() as int) =~= ps);
        assert(parts@.map_values(|p: Vec<Piece>| pieces_view(p@)) =~= Seq::new(ps.len(), |j: int| ps[j]->0->Ok_0));
    }
    Some(Ok(parts))
}

/// The JSON text of `v` as pieces, nesting at most `fuel` deep.
fn json_value(heap: &Heap, v: &PyValue, fuel: u64) -> (r: Option<Result<Vec<Piece>, PyValue>>)
    requires
        heap.wf(),
    ensures
        match r {
            Some(Ok(p)) => json_val(heap@, v.sv(), fuel as nat) == Some(Ok::<Seq<SPiece>, SVal>(pieces_view(p@))),
            Some(Err(e)) => json_val(heap@, v.sv(), fuel as nat) == Some(Err::<Seq<SPiece>, SVal>(e.sv())),
            None => json_val(heap@, v.sv(), fuel as nat) is None,
        },
    decreases fuel, 0nat,
{
    if fuel == 0 {
        return None;
    }
    match v {
        PyValue::NoneVal => Some(Ok(text_piece("null"))),
        PyValue::Bool(b) => Some(Ok(if *b { text_piece("true") } else { text_piece("false") })),
        PyValue::Int(i) => {
            let s = int_to_string(*i);
            let r = text_piece(s.as_str());
            Some(Ok(r))
        },
        PyValue::Float(b) => {
            let r = vec![Piece::Float(*b)];
            proof {
                assert(pieces_view(r@) =~= seq![SPiece::Float(*b)]);
            }
            Some(Ok(r))
        },
        PyValue::Str(s) => {
            let mut t = String::new();
            push_char(&mut t, '"');
            let e = escaped(s);
            t.append(e.as_str());
            push_char(&mut t, '"');
            proof {
                assert(t@ =~= seq!['"'] + escape(s@) + seq!['"']);
            }
            let r = text_piece(t.as_str());
            Some(Ok(r))
        },
        PyValue::List(l) => {
            let items = heap.list_items(*l);
            match json_items(heap, &items, fuel - 1) {
                Some(Ok(parts)) => {
                    let r = bracketed("[", parts, "]");
                            Some(Ok(r))
                },
                Some(Err(e)) => Some(Err(e)),
                None => None,
            }
        },
        PyValue::Tuple(items) => {
            match json_items(heap, items, fuel - 1) {
                Some(Ok(parts)) => {
                    let r = bracketed("[", parts, "]");
                            Some(Ok(r))
                },
                Some(Err(e)) => Some(Err(e)),
                None => None,
            }
        },
        PyValue::Dict(d) => {
            let es = heap.dict_entries(*d);
            let mut vals: Vec<PyValue> = Vec::new();
            let mut i: usize = 0;
            proof {
                crate::table::lemma_tview(es@);
            }
            while i < es.len()
                invariant
                    i <= es.len(),
                    vals@.len() == i,
                    forall|j: int| 0 <= j < i ==> (#[trigger] vals@[j]).sv() == es@[j].1.sv(),
                decreases es.len() - i,
            {
                vals.push(es[i].1.copy());
                i = i + 1;
            }
            let ghost ev = tview(es@);
            proof {
                crate::machine::lemma_vals_index(vals@);
                assert(vals_view(vals@) =~= entry_values(ev));
            }
            match json_items(heap, &vals, fuel - 1) {
                Some(Ok(parts)) => {
                    let ghost pv = parts@.map_values(|p: Vec<Piece>| pieces_view(p@));
                    let mut kparts: Vec<Vec<Piece>> = Vec::new();
                    let mut j: usize = 0;
                    let mut parts = parts;
                    let mut taken: Vec<Vec<Piece>> = Vec::new();
                    let n = parts.len();
                    while parts.len() > 0
                        invariant
                            taken@.len() + parts@.len() == n,
                            pv.len() == n,
                            forall|k: int| 0 <= k < taken@.len() ==> pieces_view((#[trigger] taken@[k])@) == pv[n - 1 - k],
                            forall|k: int| 0 <= k < parts@.len() ==> pieces_view((#[trigger] parts@[k])@) == pv[k],
                        decreases parts.len(),
                    {
                        let p = parts.pop().unwrap();
                        taken.push(p);
                    }
                    while j < n
                        invariant
                            j <= n,
                            n == pv.len(),
                            n <= es.len(),
                            ev == tview(es@),
                            ev.len() == es.len(),
                            taken@.len() == n - j,
                            forall|k: int| 0 <= k < taken@.len() ==> pieces_view((#[trigger] taken@[k])@) == pv[n - 1 - k],
                            kparts@.len() == j,
                            forall|k: int| 0 <= k < j ==> pieces_view((#[trigger] kparts@[k])@) == text(seq!['"'] + ev[k].0 + "\": "@) + pv[k],
                        decreases n - j,
                    {
                        let p = taken.pop().unwrap();
                        let mut key = String::new();
                        push_char(&mut key, '"');
                        key.append(es[j].0.as_str());
                        key.append("\": ");
                        let mut kp = text_piece(key.as_str());
                        append_pieces(&mut kp, p);
                        proof {
                            assert(pieces_view(kp@) =~= text(seq!['"'] + ev[j as int].0 + "\": "@) + pv[j as int]);
                        }
                        kparts.push(kp);
                        j = j + 1;
                    }
                    proof {
                        assert(kparts@.map_values(|p: Vec<Piece>| pieces_view(p@)) =~= entry_parts(ev, pv));
                    }
                    let r = bracketed("{", kparts, "}");
                            Some(Ok(r))
                },
                Some(Err(e)) => Some(Err(e)),
                None => None,
            }
        },
        _ => Some(Err(py_err_val("TypeError", "Object of this type is not JSON serializable"))),
    }
}

/// The JSON text of `v`, as pieces; `None` when it nests deeper than
/// `u64::MAX` levels.
pub fn json_dump(heap: &Heap, v: &PyValue) -> (r: Option<Result<Vec<Piece>, PyValue>>)
    requires
        heap.wf(),
    ensures
        match r {
            Some(Ok(p)) => json_val(heap@, v.sv(), u64::MAX as nat) == Some(Ok::<Seq<SPiece>, SVal>(pieces_view(p@))),
            Some(Err(e)) => json_val(heap@, v.sv(), u64::MAX as nat) == Some(Err::<Seq<SPiece>, SVal>(e.sv())),
            None => json_val(heap@, v.sv(), u64::MAX as nat) is None,
        },
{
    json_value(heap, v, u64::MAX)
}

} // verus!
