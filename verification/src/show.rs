//! How values print: the text `print` and `str()` give for a value whose
//! class has no `__str__`. Floats, builtins and open files are left as
//! pieces of their own for the caller to write out.
use vstd::prelude::*;
use crate::heap::{Heap, HeapView};
use crate::json::{
    append_pieces, bracketed, collect, join, lemma_collect_ok, lemma_collect_stop, pieces_view, text, text_piece,
    Piece, SPiece,
};
use crate::table::tview;
use crate::text::push_char;
use crate::value::{int_text, int_to_string, vals_view, PyValue, SVal};

verus! {

/// The text of each of `vs`.
pub open spec fn show_all(h: HeapView, vs: Seq<SVal>, fuel: nat, quote: bool) -> Seq<Option<Result<Seq<SPiece>, SVal>>>
    decreases fuel, 1nat,
{
    Seq::new(vs.len(), |i: int| show_val(h, vs[i], fuel, quote))
}

pub open spec fn entry_values(es: Seq<(Seq<char>, SVal)>) -> Seq<SVal> {
    es.map_values(|e: (Seq<char>, SVal)| e.1)
}

pub open spec fn entry_parts(es: Seq<(Seq<char>, SVal)>, ps: Seq<Seq<SPiece>>) -> Seq<Seq<SPiece>> {
    Seq::new(ps.len(), |i: int| text(seq!['\''] + es[i].0 + "': "@) + ps[i])
}

/// The name of class `c` (empty when there is none).
pub open spec fn class_text(h: HeapView, c: usize) -> Seq<char> {
    if c < h.classes.len() { h.classes[c as int].name } else { Seq::empty() }
}

/// The text of `v`, nesting at most `fuel` deep (`None` past that); a
/// string item of a list or tuple (`quote`) is shown in quotes. It never
/// fails: the `Err` side is not used.
pub open spec fn show_val(h: HeapView, v: SVal, fuel: nat, quote: bool) -> Option<Result<Seq<SPiece>, SVal>>
    decreases fuel, 0nat,
{
    if fuel == 0 {
        None
    } else {
        match v {
            SVal::NoneVal => Some(Ok(text("None"@))),
            SVal::Bool(b) => Some(Ok(text(if b { "True"@ } else { "False"@ }))),
            SVal::Int(i) => Some(Ok(text(int_text(i)))),
            SVal::Float(b) => Some(Ok(seq![SPiece::Float(b)])),
            SVal::Str(s) => Some(Ok(text(if quote { seq!['\''] + s + seq!['\''] } else { s }))),
            SVal::Tuple(items) => match collect(show_all(h, items, (fuel - 1) as nat, true)) {
                Some(Ok(ps)) => Some(Ok(if ps.len() == 1 {
                    text("("@) + ps[0] + text(",)"@)
                } else {
                    text("("@) + join(ps) + text(")"@)
                })),
                Some(Err(e)) => Some(Err(e)),
                None => None,
            },
            SVal::List(l) => {
                let items = if l < h.lists.len() { h.lists[l as int] } else { Seq::empty() };
                match collect(show_all(h, items, (fuel - 1) as nat, true)) {
                    Some(Ok(ps)) => Some(Ok(text("["@) + join(ps) + text("]"@))),
                    Some(Err(e)) => Some(Err(e)),
                    None => None,
                }
            },
            SVal::Dict(d) => {
                let es = if d < h.dicts.len() { h.dicts[d as int] } else { Seq::empty() };
                match collect(show_all(h, entry_values(es), (fuel - 1) as nat, false)) {
                    Some(Ok(ps)) => Some(Ok(text("{"@) + join(entry_parts(es, ps)) + text("}"@))),
                    Some(Err(e)) => Some(Err(e)),
                    None => None,
                }
            },
            SVal::Class(c) => Some(Ok(text("<class '"@ + class_text(h, c) + "'>"@))),
            SVal::Instance(i) => Some(Ok(text(
                if i < h.instances.len() && h.instances[i as int].class < h.classes.len() {
                    "<"@ + h.classes[h.instances[i as int].class as int].name + " object>"@
                } else {
                    "<object>"@
                },
            ))),
            SVal::BoundMethod(_, _) => Some(Ok(text("<bound method>"@))),
            SVal::Exception(t, a) => match show_val(h, *a, (fuel - 1) as nat, false) {
                Some(Ok(p)) => Some(Ok(text(t + "("@) + p + text(")"@))),
                Some(Err(e)) => Some(Err(e)),
                None => None,
            },
            SVal::Builtin(b) => Some(Ok(seq![SPiece::Builtin(b)])),
            SVal::Function(f) => Some(Ok(text(
                "<function "@ + (if f < h.funcs.len() { h.funcs[f as int].name } else { Seq::empty() }) + ">"@,
            ))),
            SVal::Module(n, _) => Some(Ok(text("<module '"@ + n + "'>"@))),
            SVal::File(f) => Some(Ok(seq![SPiece::File(f)])),
            SVal::Method(_, n) => Some(Ok(text("<built-in method "@ + n + ">"@))),
        }
    }
}

fn show_items(heap: &Heap, items: &Vec<PyValue>, fuel: u64, quote: bool) -> (r: Option<Result<Vec<Vec<Piece>>, PyValue>>)
    requires
        heap.wf(),
    ensures
        ({
            let ps = show_all(heap@, vals_view(items@), fuel as nat, quote);
            match r {
                Some(Ok(parts)) => parts@.len() == items@.len()
                    && collect(ps) == Some(Ok::<Seq<Seq<SPiece>>, SVal>(parts@.map_values(|p: Vec<Piece>| pieces_view(p@)))),
                Some(Err(e)) => collect(ps) == Some(Err::<Seq<Seq<SPiece>>, SVal>(e.sv())),
                None => collect(ps) is None,
            }
        }),
    decreases fuel, 1nat,
{
    let ghost ps = show_all(heap@, vals_view(items@), fuel as nat, quote);
    proof {
        crate::machine::lemma_vals_index(items@);
    }
    let mut parts: Vec<Vec<Piece>> = Vec::new();
    let mut i: usize = 0;
    while i < items.len()
        invariant
            i <= items.len(),
            ps == show_all(heap@, vals_view(items@), fuel as nat, quote),
            ps.len() == items@.len(),
            forall|j: int| 0 <= j < items@.len() ==> #[trigger] ps[j] == show_val(heap@, items@[j].sv(), fuel as nat, quote),
            heap.wf(),
            parts@.len() == i,
            forall|j: int| 0 <= j < i ==> (#[trigger] ps[j]) is Some && ps[j]->0 is Ok
                && pieces_view(parts@[j]@) == ps[j]->0->Ok_0,
        decreases items.len() - i,
    {
        match show_value(heap, &items[i], fuel, quote) {
            Some(Ok(p)) => {
                parts.push(p);
            },
            Some(Err(e)) => {
                proof {
                    lemma_collect_stop(ps, i as int, ps.len() as int);
                    assert(ps.take(ps.len() as int) =~= ps);
                }
                return Some(Err(e));
            },
            None => {
                proof {
                    lemma_collect_stop(ps, i as int, ps.len() as int);
                    assert(ps.take(ps.len() as int) =~= ps);
                }
                return None;
            },
        }
        i = i + 1;
    }
    proof {
        lemma_collect_ok(ps, ps.len() as int);
        assert(ps.take(ps.len() as int) =~= ps);
        assert(parts@.map_values(|p: Vec<Piece>| pieces_view(p@)) =~= Seq::new(ps.len(), |j: int| ps[j]->0->Ok_0));
    }
    Some(Ok(parts))
}

fn text_of(s: String) -> (r: Vec<Piece>)
    ensures
        pieces_view(r@) == text(s@),
{
    let r = vec![Piece::Text(s)];
    proof {
        assert(pieces_view(r@) =~= text(r@[0]->Text_0@));
    }
    r
}

fn show_value(heap: &Heap, v: &PyValue, fuel: u64, quote: bool) -> (r: Option<Result<Vec<Piece>, PyValue>>)
    requires
        heap.wf(),
    ensures
        match r {
            Some(Ok(p)) => show_val(heap@, v.sv(), fuel as nat, quote) == Some(Ok::<Seq<SPiece>, SVal>(pieces_view(p@))),
            Some(Err(e)) => show_val(heap@, v.sv(), fuel as nat, quote) == Some(Err::<Seq<SPiece>, SVal>(e.sv())),
            None => show_val(heap@, v.sv(), fuel as nat, quote) is None,
        },
    decreases fuel, 0nat,
{
    if fuel == 0 {
        return None;
    }
    match v {
        PyValue::NoneVal => Some(Ok(text_piece("None"))),
        PyValue::Bool(b) => Some(Ok(if *b { text_piece("True") } else { text_piece("False") })),
        PyValue::Int(i) => Some(Ok(text_of(int_to_string(*i)))),
        PyValue::Float(b) => {
            let r = vec![Piece::Float(*b)];
            proof {
                assert(pieces_view(r@) =~= seq![SPiece::Float(*b)]);
            }
            Some(Ok(r))
        },
        PyValue::Str(s) => {
            if quote {
                let mut t = String::new();
                push_char(&mut t, '\'');
                t.append(s.as_str());
                push_char(&mut t, '\'');
                proof {
                    assert(t@ =~= seq!['\''] + s@ + seq!['\'']);
                }
                Some(Ok(text_of(t)))
            } else {
                Some(Ok(text_of(s.clone())))
            }
        },
        PyValue::Tuple(items) => match show_items(heap, items, fuel - 1, true) {
            Some(Ok(parts)) => {
                if parts.len() == 1 {
                    let ghost pv = parts@.map_values(|p: Vec<Piece>| pieces_view(p@));
                    let mut parts = parts;
                    let p0 = parts.pop().unwrap();
                    proof {
                        assert(pieces_view(p0@) == pv[0]);
                    }
                    let mut r = text_piece("(");
                    append_pieces(&mut r, p0);
                    append_pieces(&mut r, text_piece(",)"));
                    Some(Ok(r))
                } else {
                    Some(Ok(bracketed("(", parts, ")")))
                }
            },
            Some(Err(e)) => Some(Err(e)),
            None => None,
        },
        PyValue::List(l) => {
            let items = heap.list_items(*l);
            match show_items(heap, &items, fuel - 1, true) {
                Some(Ok(parts)) => Some(Ok(bracketed("[", parts, "]"))),
                Some(Err(e)) => Some(Err(e)),
                None => None,
            }
        },
        PyValue::Dict(d) => {
            let es = heap.dict_entries(*d);
            let mut vals: Vec<PyValue> = Vec::new();
            let mut i: usize = 0;
            proof {
                crate::table::lemma_tview(es@);
            }
            while i < es.len()
                invariant
                    i <= es.len(),
                    vals@.len() == i,
                    forall|j: int| 0 <= j < i ==> (#[trigger] vals@[j]).sv() == es@[j].1.sv(),
                decreases es.len() - i,
            {
                vals.push(es[i].1.copy());
                i = i + 1;
            }
            let ghost ev = tview(es@);
            proof {
                crate::machine::lemma_vals_index(vals@);
                assert(vals_view(vals@) =~= entry_values(ev));
            }
            match show_items(heap, &vals, fuel - 1, false) {
                Some(Ok(parts)) => {
                    let ghost pv = parts@.map_values(|p: Vec<Piece>| pieces_view(p@));
                    let mut kparts: Vec<Vec<Piece>> = Vec::new();
                    let mut j: usize = 0;
                    let mut parts = parts;
                    let mut taken: Vec<Vec<Piece>> = Vec::new();
                    let n = parts.len();
                    while parts.len() > 0
                        invariant
                            taken@.len() + parts@.len() == n,
                            pv.len() == n,
                            forall|k: int| 0 <= k < taken@.len() ==> pieces_view((#[trigger] taken@[k])@) == pv[n - 1 - k],
                            forall|k: int| 0 <= k < parts@.len() ==> pieces_view((#[trigger] parts@[k])@) == pv[k],
                        decreases parts.len(),
                    {
                        let p = parts.pop().unwrap();
                        taken.push(p);
                    }
                    while j < n
                        invariant
                            j <= n,
                            n == pv.len(),
                            n <= es.len(),
                            ev == tview(es@),
                            ev.len() == es.len(),
                            taken@.len() == n - j,
                            forall|k: int| 0 <= k < taken@.len() ==> pieces_view((#[trigger] taken@[k])@) == pv[n - 1 - k],
                            kparts@.len() == j,
                            forall|k: int| 0 <= k < j ==> pieces_view((#[trigger] kparts@[k])@) == text(seq!['\''] + ev[k].0 + "': "@) + pv[k],
                        decreases n - j,
                    {
                        let p = taken.pop().unwrap();
                        let mut key = String::new();
                        push_char(&mut key, '\'');
                        key.append(es[j].0.as_str());
                        key.append("': ");
                        let mut kp = text_piece(key.as_str());
                        append_pieces(&mut kp, p);
                        proof {
                            assert(pieces_view(kp@) =~= text(seq!['\''] + ev[j as int].0 + "': "@) + pv[j as int]);
                        }
                        kparts.push(kp);
                        j = j + 1;
                    }
                    proof {
                        assert(kparts@.map_values(|p: Vec<Piece>| pieces_view(p@)) =~= entry_parts(ev, pv));
                    }
                    Some(Ok(bracketed("{", kparts, "}")))
                },
                Some(Err(e)) => Some(Err(e)),
                None => None,
            }
        },
        PyValue::Class(c) => {
            let mut t = "<class '".to_owned();
            match heap.class_name(*c) {
                Some(n) => t.append(n.as_str()),
                None => {},
            }
            t.append("'>");
            proof {
                assert(t@ =~= "<class '"@ + class_text(heap@, *c) + "'>"@);
            }
            Some(Ok(text_of(t)))
        },
        PyValue::Instance(i) => {
            let name = match heap.instance_class(*i) {
                Some(c) => heap.class_name(c),
                None => None,
            };
            match name {
                Some(n) => {
                    let mut t = "<".to_owned();
                    t.append(n.as_str());
                    t.append(" object>");
                    Some(Ok(text_of(t)))
                },
                None => Some(Ok(text_piece("<object>"))),
            }
        },
        PyValue::BoundMethod(_, _) => Some(Ok(text_piece("<bound method>"))),
        PyValue::Exception(t, a) => match show_value(heap, &**a, fuel - 1, false) {
            Some(Ok(p)) => {
                let mut head = t.clone();
                head.append("(");
                let mut r = text_of(head);
                append_pieces(&mut r, p);
                append_pieces(&mut r, text_piece(")"));
                Some(Ok(r))
            },
            Some(Err(e)) => Some(Err(e)),
            None => None,
        },
        PyValue::Builtin(b) => {
            let r = vec![Piece::Builtin(*b)];
            proof {
                assert(pieces_view(r@) =~= seq![SPiece::Builtin(*b)]);
            }
            Some(Ok(r))
        },
        PyValue::Function(f) => {
            let mut t = "<function ".to_owned();
            let n = heap.func_name(*f);
            t.append(n.as_str());
            t.append(">");
            Some(Ok(text_of(t)))
        },
        PyValue::Module(n, _) => {
            let mut t = "<module '".to_owned();
            t.append(n.as_str());
            t.append("'>");
            Some(Ok(text_of(t)))
        },
        PyValue::File(f) => {
            let r = vec![Piece::File(*f)];
            proof {
                assert(pieces_view(r@) =~= seq![SPiece::File(*f)]);
            }
            Some(Ok(r))
        },
        PyValue::Method(_, n) => {
            let mut t = "<built-in method ".to_owned();
            t.append(n.as_str());
            t.append(">");
            Some(Ok(text_of(t)))
        },
    }
}

/// The text of `v` as pieces; `None` when it nests deeper than `u64::MAX`
/// levels.
pub fn show(heap: &Heap, v: &PyValue) -> (r: Option<Vec<Piece>>)
    requires
        heap.wf(),
    ensures
        match r {
            Some(p) => show_val(heap@, v.sv(), u64::MAX as nat, false) == Some(Ok::<Seq<SPiece>, SVal>(pieces_view(p@))),
            None => !(show_val(heap@, v.sv(), u64::MAX as nat, false) matches Some(Ok(_))),
        },
{
    match show_value(heap, v, u64::MAX, false) {
        Some(Ok(p)) => Some(p),
        _ => None,
    }
}

} // verus!
