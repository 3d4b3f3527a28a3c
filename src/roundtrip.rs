use vstd::prelude::*;

use crate::commands::escape_char;
use crate::output::{
    async_class_of, async_kind_of, digit_run, escape_at, key_end, line_end_at, line_token,
    p_kv, p_kv_list, p_more_kvs, p_more_values, p_value, p_value_list, parse_line, prepend,
    result_class_of, simple_escape, single_or_list, str_body, stream_kind_of, word_end,
    AsyncClassV, OutputV,
};
use crate::output::{AsyncKind, BreakPointEvent, ResultClass, StreamKind, ThreadEvent};
use crate::text::{dec_str, dec_value, digit_char, digit_val, is_digit};
use crate::value::{collapse, find_key, group, group_add, merge_group, Val};

verus! {

/// The body of a C-string literal: backslash and quote escaped.
pub open spec fn esc_str(t: Seq<char>) -> Seq<char>
    decreases t.len(),
{
    if t.len() == 0 {
        Seq::empty()
    } else {
        escape_char(t[0]) + esc_str(t.drop_first())
    }
}

pub open spec fn enc_str(t: Seq<char>) -> Seq<char> {
    seq!['"'] + esc_str(t) + seq!['"']
}

/// Parts joined by commas.
pub open spec fn joined(parts: Seq<Seq<char>>) -> Seq<char>
    decreases parts.len(),
{
    if parts.len() == 0 {
        Seq::empty()
    } else if parts.len() == 1 {
        parts[0]
    } else {
        parts[0] + seq![','] + joined(parts.drop_first())
    }
}

/// The wire form of a value.
pub open spec fn enc_val(v: Val) -> Seq<char>
    decreases v, 1int,
{
    match v {
        Val::Str(t) => enc_str(t),
        Val::Tuple(es) => seq!['{'] + joined(tuple_parts(es)) + seq!['}'],
        Val::List(vs) => seq!['['] + joined(list_parts(vs)) + seq![']'],
    }
}

/// The wire forms of a list's values.
pub open spec fn list_parts(vs: Seq<Val>) -> Seq<Seq<char>>
    decreases vs, 0int,
{
    Seq::new(
        vs.len(),
        |i: int|
            if 0 <= i < vs.len() {
                enc_val(vs[i])
            } else {
                Seq::empty()
            },
    )
}

/// The wire forms `name=value` of a tuple's entries.
pub open spec fn tuple_parts(es: Seq<(Seq<char>, Val)>) -> Seq<Seq<char>>
    decreases es, 0int,
{
    Seq::new(
        es.len(),
        |i: int|
            if 0 <= i < es.len() {
                es[i].0 + seq!['='] + enc_val(es[i].1)
            } else {
                Seq::empty()
            },
    )
}

pub open spec fn enc_kv(e: (Seq<char>, Val)) -> Seq<char> {
    e.0 + seq!['='] + enc_val(e.1)
}

/// Each named value preceded by a comma, as after a record's class.
pub open spec fn enc_results(es: Seq<(Seq<char>, Val)>) -> Seq<char>
    decreases es.len(),
{
    if es.len() == 0 {
        Seq::empty()
    } else {
        seq![','] + enc_kv(es[0]) + enc_results(es.drop_first())
    }
}

/// A character that can stand in a name.
pub open spec fn is_name_char(c: char) -> bool {
    !(c == '=' || c == '{' || c == '}' || c == '"' || c == '[' || c == ']' || c == ',' || c == '\r'
        || c == '\n')
}

pub open spec fn name_ok(k: Seq<char>) -> bool {
    k.len() > 0 && forall|j: int| 0 <= j < k.len() ==> is_name_char(#[trigger] k[j])
}

/// Names that are well formed and distinct.
pub open spec fn names_ok(es: Seq<(Seq<char>, Val)>) -> bool {
    &&& forall|i: int| 0 <= i < es.len() ==> name_ok(#[trigger] es[i].0)
    &&& forall|i: int, j: int| 0 <= i < j < es.len() ==> es[i].0 != es[j].0
}

/// Whether every entry is true.
pub open spec fn all_true(bs: Seq<bool>) -> bool {
    forall|i: int| 0 <= i < bs.len() ==> #[trigger] bs[i]
}

/// A value the wire form can carry unchanged: tuples with distinct,
/// well-formed names.
pub open spec fn wf_val(v: Val) -> bool
    decreases v, 1int,
{
    match v {
        Val::Str(_) => true,
        Val::Tuple(es) => names_ok(es) && all_true(entry_flags(es)),
        Val::List(vs) => all_true(list_flags(vs)),
    }
}

pub open spec fn list_flags(vs: Seq<Val>) -> Seq<bool>
    decreases vs, 0int,
{
    Seq::new(
        vs.len(),
        |i: int|
            if 0 <= i < vs.len() {
                wf_val(vs[i])
            } else {
                true
            },
    )
}

pub open spec fn entry_flags(es: Seq<(Seq<char>, Val)>) -> Seq<bool>
    decreases es, 0int,
{
    Seq::new(
        es.len(),
        |i: int|
            if 0 <= i < es.len() {
                wf_val(es[i].1)
            } else {
                true
            },
    )
}

pub open spec fn wf_list(vs: Seq<Val>) -> bool {
    forall|i: int| 0 <= i < vs.len() ==> #[trigger] wf_val(vs[i])
}

pub open spec fn wf_entries(es: Seq<(Seq<char>, Val)>) -> bool {
    forall|i: int| 0 <= i < es.len() ==> #[trigger] wf_val(es[i].1)
}


proof fn lemma_str(t: Seq<char>, s: Seq<char>, j: int)
    requires
        0 <= j,
        j + esc_str(t).len() as int + 1 <= s.len() as int,
        s.subrange(j, j + esc_str(t).len() as int + 1) == esc_str(t) + seq!['"'],
    ensures
        str_body(s, j) == Some((t, j + esc_str(t).len() as int + 1)),
    decreases t.len() as int,
{
    let body = esc_str(t) + seq!['"'];
    let bl = esc_str(t).len() as int + 1;
    assert(s[j] == body[0]) by {
        assert(s.subrange(j, j + bl)[0] == body[0]);
    }
    if t.len() as int == 0 {
        assert(t =~= Seq::<char>::empty());
    } else {
        let c = t[0];
        let rest = t.drop_first();
        let er = esc_str(rest);
        let ec = escape_char(c);
        assert(esc_str(t) == ec + er);
        let n: int = ec.len() as int;
        let rl: int = er.len() as int + 1;
        assert forall|m: int| 0 <= m < rl implies #[trigger] s.subrange(j + n, j + n + rl)[m] == (er
            + seq!['"'])[m] by {
            assert(s.subrange(j, j + bl)[n + m] == body[n + m]);
            assert(body[n + m] == (er + seq!['"'])[m]);
        }
        assert(s.subrange(j + n, j + n + rl) =~= er + seq!['"']);
        lemma_str(rest, s, j + n);
        if c == '"' || c == '\\' {
            assert(n == 2);
            assert(s[j] == '\\');
            assert(s[j + 1] == c) by {
                assert(s.subrange(j, j + bl)[1] == body[1]);
            }
            assert(simple_escape(c) == Some(c));
            assert(escape_at(s, j + 1) == Some((Some(c), j + 2)));
            assert(seq![c] + rest =~= t);
        } else {
            assert(n == 1);
            assert(s[j] == c);
            assert(seq![c] + rest =~= t);
        }
    }
}

proof fn lemma_key_end(k: Seq<char>, s: Seq<char>, p: int, m: int)
    requires
        0 <= p <= m <= p + k.len() as int,
        (p + k.len() as int) < s.len() as int,
        forall|j: int| 0 <= j < k.len() as int ==> is_name_char(#[trigger] k[j]),
        s.subrange(p, p + k.len() as int) == k,
        s[p + k.len() as int] == '=',
    ensures
        key_end(s, m) == p + k.len() as int,
    decreases p + k.len() as int - m,
{
    if m < p + k.len() as int {
        assert(s[m] == k[m - p]) by {
            assert(s.subrange(p, p + k.len() as int)[m - p] == k[m - p]);
        }
        assert(is_name_char(k[m - p]));
        lemma_key_end(k, s, p, m + 1);
    }
}

proof fn lemma_joined_split(parts: Seq<Seq<char>>)
    requires
        parts.len() as int >= 2,
    ensures
        joined(parts) == parts[0] + seq![','] + joined(parts.drop_first()),
{
}

proof fn lemma_enc_nonempty(v: Val)
    ensures
        enc_val(v).len() as int >= 2,
        enc_val(v)[0] == '"' || enc_val(v)[0] == '{' || enc_val(v)[0] == '[',
{
}

proof fn lemma_sub(s: Seq<char>, a: int, w: Seq<char>, off: int, len: int)
    requires
        0 <= a,
        (a + w.len() as int) <= s.len() as int,
        s.subrange(a, a + w.len() as int) == w,
        0 <= off,
        off + len <= w.len() as int,
        0 <= len,
    ensures
        s.subrange(a + off, a + off + len) == w.subrange(off, off + len),
{
    assert forall|m: int| 0 <= m < len implies #[trigger] s.subrange(a + off, a + off + len)[m]
        == w.subrange(off, off + len)[m] by {
        assert(s.subrange(a, a + w.len() as int)[off + m] == w[off + m]);
    }
    assert(s.subrange(a + off, a + off + len) =~= w.subrange(off, off + len));
}

/// A value's wire form reads back as the value.
proof fn lemma_val(v: Val, s: Seq<char>, i: int)
    requires
        wf_val(v),
        0 <= i,
        (i + enc_val(v).len() as int) <= s.len() as int,
        s.subrange(i, i + enc_val(v).len() as int) == enc_val(v),
    ensures
        p_value(s, i) == Some((v, i + enc_val(v).len() as int)),
    decreases v, 0int,
{
    let w = enc_val(v);
    let wl: int = w.len() as int;
    lemma_enc_nonempty(v);
    assert(s[i] == w[0]) by {
        assert(s.subrange(i, i + wl)[0] == w[0]);
    }
    match v {
        Val::Str(t) => {
            let el: int = esc_str(t).len() as int + 1;
            lemma_sub(s, i, w, 1, el);
            assert(w.subrange(1, 1 + el) =~= esc_str(t) + seq!['"']);
            lemma_str(t, s, i + 1);
        },
        Val::List(vs) => {
            assert(wf_list(vs)) by {
                assert forall|j: int| 0 <= j < vs.len() implies #[trigger] wf_val(vs[j]) by {
                    assert(list_flags(vs)[j]);
                }
            }
            let parts = list_parts(vs);
            let jn = joined(parts);
            let jl: int = jn.len() as int;
            assert(s[i + 1 + jl] == ']') by {
                assert(s.subrange(i, i + wl)[1 + jl] == w[1 + jl]);
            }
            if vs.len() as int == 0 {
                assert(jl == 0);
                assert(p_value(s, i + 1) is None);
                assert(vs =~= Seq::<Val>::empty());
            } else {
                lemma_sub(s, i, w, 1, jl);
                assert(w.subrange(1, 1 + jl) =~= jn);
                assert(list_parts(vs).subrange(0, vs.len() as int) =~= list_parts(vs));
                lemma_vlist(vs, 0, s, i + 1);
                assert(vs.subrange(0, vs.len() as int) =~= vs);
            }
        },
        Val::Tuple(es) => {
            assert(names_ok(es));
            assert(wf_entries(es)) by {
                assert forall|j: int| 0 <= j < es.len() implies #[trigger] wf_val(es[j].1) by {
                    assert(entry_flags(es)[j]);
                }
            }
            let parts = tuple_parts(es);
            let jn = joined(parts);
            let jl: int = jn.len() as int;
            assert(s[i + 1 + jl] == '}') by {
                assert(s.subrange(i, i + wl)[1 + jl] == w[1 + jl]);
            }
            if es.len() as int == 0 {
                assert(jl == 0);
                assert(key_end(s, i + 1) == i + 1);
                assert(p_kv(s, i + 1) is None);
                assert(es =~= Seq::<(Seq<char>, Val)>::empty());
                assert(collapse(es) =~= es);
            } else {
                lemma_sub(s, i, w, 1, jl);
                assert(w.subrange(1, 1 + jl) =~= jn);
                assert(tuple_parts(es).subrange(0, es.len() as int) =~= tuple_parts(es));
                lemma_kvlist(es, 0, s, i + 1);
                assert(es.subrange(0, es.len() as int) =~= es);
                lemma_collapse_unique(es);
            }
        },
    }
}

pub open spec fn list_tail(vs: Seq<Val>, k: int) -> Seq<char> {
    joined(list_parts(vs).subrange(k, vs.len() as int))
}

pub open spec fn tuple_tail(es: Seq<(Seq<char>, Val)>, k: int) -> Seq<char> {
    joined(tuple_parts(es).subrange(k, es.len() as int))
}

/// The values of a list from index `k` read back, up to a non-comma.
proof fn lemma_vlist(vs: Seq<Val>, k: int, s: Seq<char>, p: int)
    requires
        0 <= k < vs.len() as int,
        wf_list(vs),
        0 <= p,
        (p + list_tail(vs, k).len() as int) <= s.len() as int,
        s.subrange(p, p + list_tail(vs, k).len() as int) == list_tail(vs, k),
        p + list_tail(vs, k).len() as int >= s.len() as int || s[p + list_tail(vs, k).len() as int] != ',',
    ensures
        p_value_list(s, p) == (vs.subrange(k, vs.len() as int), p + list_tail(vs, k).len() as int),
    decreases vs, vs.len() as int - k,
{
    let parts = list_parts(vs).subrange(k, vs.len() as int);
    let jn = joined(parts);
    let e0 = enc_val(vs[k]);
    let el: int = e0.len() as int;
    assert(parts[0] == e0);
    assert(wf_val(vs[k])) by {
        
    }
    lemma_enc_nonempty(vs[k]);
    if parts.len() as int == 1 {
        assert(jn == e0);
        lemma_val(vs[k], s, p);
        assert(p_more_values(s, p + el) == (Seq::<Val>::empty(), p + el));
        assert(vs.subrange(k, vs.len() as int) =~= seq![vs[k]]);
        assert(seq![vs[k]] + Seq::<Val>::empty() =~= seq![vs[k]]);
    } else {
        lemma_joined_split(parts);
        let rest = parts.drop_first();
        assert(rest =~= list_parts(vs).subrange(k + 1, vs.len() as int));
        let jr = joined(rest);
        let rl: int = jr.len() as int;
        assert(jn == e0 + seq![','] + jr);
        lemma_sub(s, p, jn, 0, el);
        assert(jn.subrange(0, el) =~= e0);
        lemma_val(vs[k], s, p);
        let q = p + el;
        assert(s[q] == ',') by {
            assert(s.subrange(p, p + jn.len() as int)[el] == jn[el]);
        }
        lemma_sub(s, p, jn, el + 1, rl);
        assert(jn.subrange(el + 1, el + 1 + rl) =~= jr);
        lemma_vlist(vs, k + 1, s, q + 1);
        lemma_vlist_first(vs, k + 1, s, q + 1);
        assert(vs.subrange(k, vs.len() as int) =~= seq![vs[k]] + vs.subrange(k + 1, vs.len() as int));
    }
}

/// The first value of the parts from index `k` reads back.
proof fn lemma_vlist_first(vs: Seq<Val>, k: int, s: Seq<char>, p: int)
    requires
        0 <= k < vs.len() as int,
        wf_list(vs),
        0 <= p,
        (p + list_tail(vs, k).len() as int) <= s.len() as int,
        s.subrange(p, p + list_tail(vs, k).len() as int) == list_tail(vs, k),
    ensures
        p_value(s, p) == Some((vs[k], p + enc_val(vs[k]).len() as int)),
    decreases vs, vs.len() as int - k,
{
    let parts = list_parts(vs).subrange(k, vs.len() as int);
    let jn = joined(parts);
    let e0 = enc_val(vs[k]);
    assert(parts[0] == e0);
    assert(wf_val(vs[k])) by {
        
    }
    if parts.len() as int > 1 {
        lemma_joined_split(parts);
    }
    assert(jn.subrange(0, e0.len() as int) =~= e0);
    lemma_sub(s, p, jn, 0, e0.len() as int);
    lemma_val(vs[k], s, p);
}

/// The named values of a tuple from index `k` read back, up to a non-comma.
proof fn lemma_kvlist(es: Seq<(Seq<char>, Val)>, k: int, s: Seq<char>, p: int)
    requires
        0 <= k < es.len() as int,
        names_ok(es),
        wf_entries(es),
        0 <= p,
        (p + tuple_tail(es, k).len() as int) < s.len() as int,
        s.subrange(p, p + tuple_tail(es, k).len() as int) == tuple_tail(es, k),
        s[p + tuple_tail(es, k).len() as int] != ',',
    ensures
        p_kv_list(s, p) == (es.subrange(k, es.len() as int), p + tuple_tail(es, k).len() as int),
    decreases es, es.len() as int - k,
{
    let parts = tuple_parts(es).subrange(k, es.len() as int);
    let jn = joined(parts);
    let e0 = es[k].0 + seq!['='] + enc_val(es[k].1);
    let el: int = e0.len() as int;
    assert(parts[0] == e0);
    assert(name_ok(es[k].0));
    assert(wf_val(es[k].1)) by {
        
    }
    if parts.len() as int == 1 {
        assert(jn == e0);
        lemma_kv(es[k], s, p);
        assert(p_more_kvs(s, p + el) == (Seq::<(Seq<char>, Val)>::empty(), p + el));
        assert(es.subrange(k, es.len() as int) =~= seq![es[k]]);
        assert(seq![es[k]] + Seq::<(Seq<char>, Val)>::empty() =~= seq![es[k]]);
    } else {
        lemma_joined_split(parts);
        let rest = parts.drop_first();
        assert(rest =~= tuple_parts(es).subrange(k + 1, es.len() as int));
        let jr = joined(rest);
        let rl: int = jr.len() as int;
        assert(jn == e0 + seq![','] + jr);
        lemma_sub(s, p, jn, 0, el);
        assert(jn.subrange(0, el) =~= e0);
        let q = p + el;
        assert(s[q] == ',') by {
            assert(s.subrange(p, p + jn.len() as int)[el] == jn[el]);
        }
        lemma_sub(s, p, jn, el + 1, rl);
        assert(jn.subrange(el + 1, el + 1 + rl) =~= jr);
        assert(rest[0] == es[k + 1].0 + seq!['='] + enc_val(es[k + 1].1));
        assert(name_ok(es[k + 1].0));
        assert(s[q + 1] == es[k + 1].0[0]) by {
            if rest.len() as int > 1 {
                lemma_joined_split(rest);
            }
            assert(jr[0] == es[k + 1].0[0]);
            assert(s.subrange(p, p + jn.len() as int)[el + 1] == jn[el + 1]);
        }
        assert(is_name_char(es[k + 1].0[0]));
        lemma_kv_stop(es[k], s, p);
        lemma_kvlist(es, k + 1, s, q + 1);
        assert(es.subrange(k, es.len() as int) =~= seq![es[k]] + es.subrange(k + 1, es.len() as int));
    }
}

/// A named value reads back when a comma and a name follow it.
proof fn lemma_kv_stop(e: (Seq<char>, Val), s: Seq<char>, p: int)
    requires
        name_ok(e.0),
        wf_val(e.1),
        0 <= p,
        p + enc_kv(e).len() as int + 1 < s.len() as int,
        s.subrange(p, p + enc_kv(e).len() as int) == enc_kv(e),
        s[p + enc_kv(e).len() as int] == ',',
        is_name_char(s[p + enc_kv(e).len() as int + 1]),
    ensures
        p_kv(s, p) == Some((e, p + enc_kv(e).len() as int)),
    decreases e.1, 2int,
{
    lemma_kv_core(e, s, p);
}

/// A named value reads back when no comma follows it.
proof fn lemma_kv(e: (Seq<char>, Val), s: Seq<char>, p: int)
    requires
        name_ok(e.0),
        wf_val(e.1),
        0 <= p,
        (p + enc_kv(e).len() as int) < s.len() as int,
        s.subrange(p, p + enc_kv(e).len() as int) == enc_kv(e),
        s[p + enc_kv(e).len() as int] != ',',
    ensures
        p_kv(s, p) == Some((e, p + enc_kv(e).len() as int)),
    decreases e.1, 2int,
{
    lemma_kv_core(e, s, p);
}

proof fn lemma_kv_core(e: (Seq<char>, Val), s: Seq<char>, p: int)
    requires
        name_ok(e.0),
        wf_val(e.1),
        0 <= p,
        (p + enc_kv(e).len() as int) < s.len() as int,
        s.subrange(p, p + enc_kv(e).len() as int) == enc_kv(e),
        value_stop(s, p + enc_kv(e).len() as int),
    ensures
        p_kv(s, p) == Some((e, p + enc_kv(e).len() as int)),
    decreases e.1, 1int,
{
    let k = e.0;
    let w = enc_kv(e);
    let ev = enc_val(e.1);
    let kl: int = k.len() as int;
    let vl: int = ev.len() as int;
    assert(w == k + seq!['='] + ev);
    lemma_sub(s, p, w, 0, kl);
    assert(w.subrange(0, kl) =~= k);
    assert(s[p + kl] == '=') by {
        assert(s.subrange(p, p + w.len() as int)[kl] == w[kl]);
    }
    lemma_key_end(k, s, p, p);
    lemma_sub(s, p, w, kl + 1, vl);
    assert(w.subrange(kl + 1, kl + 1 + vl) =~= ev);
    let a = p + kl + 1;
    lemma_val(e.1, s, a);
    let r = a + vl;
    assert(p_more_values(s, r) == (Seq::<Val>::empty(), r));
    assert(p_value_list(s, a) == (seq![e.1], r)) by {
        assert(seq![e.1] + Seq::<Val>::empty() =~= seq![e.1]);
    }
    assert(single_or_list(seq![e.1]) == e.1);
}

/// Whether position `q` cannot continue a comma-separated sequence of values.
pub open spec fn value_stop(s: Seq<char>, q: int) -> bool {
    q >= s.len() as int || s[q] != ',' || q + 1 >= s.len() as int || !(s[q + 1] == '"' || s[q + 1] == '{'
        || s[q + 1] == '[')
}

proof fn lemma_collapse_unique(es: Seq<(Seq<char>, Val)>)
    requires
        forall|i: int, j: int| 0 <= i < j < es.len() as int ==> es[i].0 != es[j].0,
    ensures
        collapse(es) == es,
{
    lemma_group_unique(es);
    assert(collapse(es) =~= es);
}

proof fn lemma_group_unique(es: Seq<(Seq<char>, Val)>)
    requires
        forall|i: int, j: int| 0 <= i < j < es.len() as int ==> es[i].0 != es[j].0,
    ensures
        group(es).len() as int == es.len() as int,
        forall|i: int| 0 <= i < es.len() as int ==> #[trigger] group(es)[i] == (es[i].0, seq![es[i].1]),
    decreases es.len() as int,
{
    if es.len() as int > 0 {
        let d = es.drop_last();
        lemma_group_unique(d);
        let g = group(d);
        let k = es.last().0;
        assert forall|i: int| 0 <= i < g.len() as int implies g[i].0 != k by {
            assert(g[i] == (d[i].0, seq![d[i].1]));
            assert(d[i] == es[i]);
        }
        lemma_find_absent(g, k, 0);
        assert forall|i: int| 0 <= i < es.len() as int implies #[trigger] group(es)[i] == (
            es[i].0,
            seq![es[i].1],
        ) by {
            if i < d.len() as int {
                assert(g[i] == (d[i].0, seq![d[i].1]));
            }
        }
    }
}

proof fn lemma_find_absent(g: Seq<(Seq<char>, Seq<Val>)>, k: Seq<char>, j: int)
    requires
        0 <= j,
        forall|i: int| 0 <= i < g.len() as int ==> g[i].0 != k,
    ensures
        find_key(g, k, j) == -1,
    decreases g.len() as int - j,
{
    if j < g.len() as int {
        lemma_find_absent(g, k, j + 1);
    }
}

pub open spec fn token_text(t: Option<u64>) -> Seq<char> {
    match t {
        Some(n) => dec_str(n as nat),
        None => Seq::empty(),
    }
}

pub open spec fn result_word(c: ResultClass) -> Seq<char> {
    match c {
        ResultClass::Done => "done"@,
        ResultClass::Running => "running"@,
        ResultClass::Connected => "connected"@,
        ResultClass::Error => "error"@,
        ResultClass::Exit => "exit"@,
    }
}

pub open spec fn async_word(c: AsyncClassV) -> Seq<char> {
    match c {
        AsyncClassV::Running => "running"@,
        AsyncClassV::Stopped => "stopped"@,
        AsyncClassV::Thread(ThreadEvent::Created) => "thread-created"@,
        AsyncClassV::Thread(ThreadEvent::GroupStarted) => "thread-group-started"@,
        AsyncClassV::Thread(ThreadEvent::Exited) => "thread-exited"@,
        AsyncClassV::Thread(ThreadEvent::GroupExited) => "thread-group-exited"@,
        AsyncClassV::Thread(ThreadEvent::Selected) => "thread-selected"@,
        AsyncClassV::CmdParamChanged => "cmd-param-changed"@,
        AsyncClassV::LibraryLoaded => "library-loaded"@,
        AsyncClassV::BreakPoint(BreakPointEvent::Created) => "breakpoint-created"@,
        AsyncClassV::BreakPoint(BreakPointEvent::Deleted) => "breakpoint-deleted"@,
        AsyncClassV::BreakPoint(BreakPointEvent::Modified) => "breakpoint-modified"@,
        AsyncClassV::Other(w) => w,
    }
}

pub open spec fn kind_char(k: AsyncKind) -> char {
    match k {
        AsyncKind::Exec => '*',
        AsyncKind::Status => '+',
        AsyncKind::Notify => '=',
    }
}

pub open spec fn stream_char(k: StreamKind) -> char {
    match k {
        StreamKind::Console => '~',
        StreamKind::Target => '@',
        StreamKind::Log => '&',
    }
}

pub open spec fn results_text(v: Val) -> Seq<char> {
    match v {
        Val::Tuple(es) => enc_results(es),
        _ => Seq::empty(),
    }
}

/// The wire form of a line of output.
pub open spec fn enc_line(o: OutputV) -> Seq<char> {
    match o {
        OutputV::Result { token, class, results } => token_text(token) + seq!['^'] + result_word(
            class,
        ) + results_text(results) + seq!['\n'],
        OutputV::Async { token, kind, class, results } => token_text(token) + seq![kind_char(kind)]
            + async_word(class) + results_text(results) + seq!['\n'],
        OutputV::Stream { kind, data } => seq![stream_char(kind)] + enc_str(data) + seq!['\n'],
        OutputV::Prompt => "(gdb) "@ + seq!['\n'],
        OutputV::Else(s) => s,
    }
}

/// A class name of the wire form: nonempty, without comma or line break.
pub open spec fn word_ok(w: Seq<char>) -> bool {
    w.len() as int > 0 && forall|j: int| 0 <= j < w.len() as int ==> #[trigger] w[j] != ',' && w[j] != '\r'
        && w[j] != '\n'
}

/// A record the wire form carries unchanged: results with distinct,
/// well-formed names; an unknown class that is a name of its own.
pub open spec fn wf_output(o: OutputV) -> bool {
    match o {
        OutputV::Result { results, .. } => results is Tuple && names_ok(results->Tuple_0)
            && wf_entries(results->Tuple_0),
        OutputV::Async { class, results, .. } => results is Tuple && names_ok(results->Tuple_0)
            && wf_entries(results->Tuple_0) && match class {
            AsyncClassV::Other(w) => word_ok(w) && async_class_of(w) == class,
            _ => true,
        },
        OutputV::Stream { .. } => true,
        OutputV::Prompt => true,
        OutputV::Else(_) => false,
    }
}

proof fn lemma_results(es: Seq<(Seq<char>, Val)>, s: Seq<char>, q: int)
    requires
        names_ok(es),
        wf_entries(es),
        0 <= q,
        (q + enc_results(es).len() as int) < s.len() as int,
        s.subrange(q, q + enc_results(es).len() as int) == enc_results(es),
        s[q + enc_results(es).len() as int] != ',',
    ensures
        p_more_kvs(s, q) == (es, q + enc_results(es).len() as int),
    decreases es.len() as int,
{
    if es.len() as int == 0 {
        assert(es =~= Seq::<(Seq<char>, Val)>::empty());
    } else {
        let w = enc_results(es);
        let kv = enc_kv(es[0]);
        let rest = es.drop_first();
        let wr = enc_results(rest);
        assert(w == seq![','] + kv + wr);
        assert(s[q] == ',') by {
            assert(s.subrange(q, q + w.len() as int)[0] == w[0]);
        }
        lemma_sub(s, q, w, 1, kv.len() as int);
        assert(w.subrange(1, 1 + kv.len() as int) =~= kv);
        lemma_sub(s, q, w, 1 + kv.len() as int, wr.len() as int);
        assert(w.subrange(1 + kv.len() as int, 1 + kv.len() as int + wr.len() as int) =~= wr);
        assert(names_ok(rest)) by {
            assert forall|i: int| 0 <= i < rest.len() as int implies name_ok(#[trigger] rest[i].0) by {
                assert(rest[i] == es[i + 1]);
            }
            assert forall|i: int, j: int| 0 <= i < j < rest.len() as int implies rest[i].0 != rest[j].0 by {
                assert(rest[i] == es[i + 1] && rest[j] == es[j + 1]);
            }
        }
        assert(wf_entries(rest)) by {
            
            assert forall|i: int| 0 <= i < rest.len() as int implies #[trigger] wf_val(rest[i].1) by {
                assert(rest[i] == es[i + 1]);
            }
        }
        assert(name_ok(es[0].0));
        assert(wf_val(es[0].1)) by {
            
        }
        let after = q + 1 + kv.len() as int;
        if rest.len() as int == 0 {
            assert(wr.len() as int == 0);
            lemma_kv(es[0], s, q + 1);
        } else {
            assert(s[after] == ',') by {
                assert(wr[0] == ',');
                assert(s.subrange(q, q + w.len() as int)[1 + kv.len() as int] == w[1 + kv.len() as int]);
            }
            assert(s[after + 1] == rest[0].0[0]) by {
                assert(wr == seq![','] + enc_kv(rest[0]) + enc_results(rest.drop_first()));
                assert(wr[1] == rest[0].0[0]);
                assert(s.subrange(q, q + w.len() as int)[2 + kv.len() as int] == w[2 + kv.len() as int]);
            }
            assert(name_ok(rest[0].0));
            assert(is_name_char(rest[0].0[0]));
            lemma_kv_stop(es[0], s, q + 1);
        }
        lemma_results(rest, s, after);
        assert(seq![es[0]] + rest =~= es);
    }
}

proof fn lemma_digit_char(d: nat)
    requires
        d < 10,
    ensures
        is_digit(digit_char(d)),
        digit_val(digit_char(d)) == d,
{
}

proof fn lemma_dec_value_ext(s1: Seq<char>, s2: Seq<char>, i1: int, i2: int, n: nat)
    requires
        0 <= i1,
        0 <= i2,
        i1 + n <= s1.len(),
        i2 + n <= s2.len(),
        s1.subrange(i1, i1 + n) == s2.subrange(i2, i2 + n),
    ensures
        dec_value(s1, i1, n) == dec_value(s2, i2, n),
    decreases n,
{
    if n > 0 {
        let m = (n - 1) as nat;
        assert(s1.subrange(i1, i1 + m) =~= s1.subrange(i1, i1 + n).subrange(0, m as int));
        assert(s2.subrange(i2, i2 + m) =~= s2.subrange(i2, i2 + n).subrange(0, m as int));
        lemma_dec_value_ext(s1, s2, i1, i2, m);
        assert(s1.subrange(i1, i1 + n)[m as int] == s2.subrange(i2, i2 + n)[m as int]);
        assert(s1.subrange(i1, i1 + n)[m as int] == s1[i1 + m as int]);
        assert(s2.subrange(i2, i2 + n)[m as int] == s2[i2 + m as int]);
        assert(dec_value(s1, i1, n) == dec_value(s1, i1, m) * 10 + digit_val(s1[i1 + n - 1]));
        assert(dec_value(s2, i2, n) == dec_value(s2, i2, m) * 10 + digit_val(s2[i2 + n - 1]));
    }
}

proof fn lemma_dec_str(n: nat)
    ensures
        dec_str(n).len() as int >= 1,
        forall|j: int| 0 <= j < dec_str(n).len() as int ==> is_digit(#[trigger] dec_str(n)[j]),
        dec_value(dec_str(n), 0, dec_str(n).len()) == n,
    decreases n,
{
    if n < 10 {
        lemma_digit_char(n);
        assert(dec_value(dec_str(n), 0, 0) == 0);
    } else {
        lemma_dec_str(n / 10);
        lemma_digit_char(n % 10);
        let x = dec_str(n / 10);
        let y = dec_str(n);
        assert(y == x.push(digit_char(n % 10)));
        assert(y.subrange(0, x.len() as int) =~= x.subrange(0, x.len() as int));
        lemma_dec_value_ext(y, x, 0, 0, x.len());
        assert(dec_value(y, 0, y.len()) == dec_value(y, 0, x.len()) * 10 + digit_val(y[x.len() as int]));
        assert(y[x.len() as int] == digit_char(n % 10));
        assert(n == (n / 10) * 10 + n % 10);
        assert forall|j: int| 0 <= j < y.len() implies is_digit(#[trigger] y[j]) by {
            if j < x.len() {
                assert(y[j] == x[j]);
            }
        }
    }
}

proof fn lemma_digit_run(s: Seq<char>, i: int, d: int)
    requires
        0 <= i <= d,
        d <= s.len() as int,
        forall|k: int| i <= k < d ==> is_digit(#[trigger] s[k]),
        d == s.len() as int || !is_digit(s[d]),
    ensures
        digit_run(s, i) == d - i,
    decreases d - i,
{
    if i < d {
        lemma_digit_run(s, i + 1, d);
    }
}

proof fn lemma_word_end(s: Seq<char>, i: int, w: Seq<char>, m: int)
    requires
        0 <= i <= m <= i + w.len() as int,
        (i + w.len() as int) < s.len() as int,
        forall|j: int| 0 <= j < w.len() as int ==> #[trigger] w[j] != ',' && w[j] != '\r' && w[j] != '\n',
        s.subrange(i, i + w.len() as int) == w,
        s[i + w.len() as int] == ',' || s[i + w.len() as int] == '\n',
    ensures
        word_end(s, m) == i + w.len() as int,
    decreases i + w.len() as int - m,
{
    if m < i + w.len() as int {
        assert(s[m] == w[m - i]) by {
            assert(s.subrange(i, i + w.len() as int)[m - i] == w[m - i]);
        }
        lemma_word_end(s, i, w, m + 1);
    }
}

/// The token and class at the head of a record line read back: the digits of
/// the token end at `d`, and the class name ends at `c`.
proof fn lemma_head(s: Seq<char>, token: Option<u64>, mark: char, w: Seq<char>)
    requires
        !is_digit(mark),
        word_ok(w),
        s.len() as int > token_text(token).len() as int + 1 + w.len() as int,
        s.subrange(0, token_text(token).len() as int + 1 + w.len() as int) == token_text(token) + seq![mark]
            + w,
        s[token_text(token).len() as int + 1 + w.len() as int] == ',' || s[token_text(token).len() as int + 1 + w.len() as int]
            == '\n',
    ensures
        digit_run(s, 0) == token_text(token).len() as int,
        digit_run(s, 0) > 0 ==> dec_value(s, 0, digit_run(s, 0)) <= u64::MAX,
        line_token(s) == token,
        s[token_text(token).len() as int] == mark,
        word_end(s, token_text(token).len() as int + 1) == token_text(token).len() as int + 1 + w.len() as int,
        s.subrange(token_text(token).len() as int + 1, token_text(token).len() as int + 1 + w.len() as int) == w,
{
    let t = token_text(token);
    let h = t + seq![mark] + w;
    let d = t.len() as int;
    assert forall|k: int| 0 <= k < h.len() as int implies s[k] == #[trigger] h[k] by {
        assert(s.subrange(0, h.len() as int)[k] == h[k]);
    }
    assert(h[d] == mark);
    assert(s[d] == mark);
    if let Some(n) = token {
        lemma_dec_str(n as nat);
        assert forall|k: int| 0 <= k < d implies is_digit(#[trigger] s[k]) by {
            assert(s[k] == h[k]);
            assert(h[k] == t[k]);
        }
        lemma_digit_run(s, 0, d);
        assert(s.subrange(0, d) =~= t.subrange(0, d));
        lemma_dec_value_ext(s, t, 0, 0, t.len());
    } else {
        lemma_digit_run(s, 0, 0);
    }
    lemma_sub(s, 0, h, d + 1, w.len() as int);
    assert(h.subrange(d + 1, d + 1 + w.len() as int) =~= w);
    lemma_word_end(s, d + 1, w, d + 1);
}

proof fn lemma_known_words()
    ensures
        result_class_of(result_word(ResultClass::Done)) == Some(ResultClass::Done),
        result_class_of(result_word(ResultClass::Running)) == Some(ResultClass::Running),
        result_class_of(result_word(ResultClass::Connected)) == Some(ResultClass::Connected),
        result_class_of(result_word(ResultClass::Error)) == Some(ResultClass::Error),
        result_class_of(result_word(ResultClass::Exit)) == Some(ResultClass::Exit),
        forall|c: ResultClass| #[trigger] word_ok(result_word(c)),
{
    broadcast use vstd::string::group_string_axioms;

    reveal_strlit("done");
    reveal_strlit("running");
    reveal_strlit("connected");
    reveal_strlit("error");
    reveal_strlit("exit");
    assert("done"@.len() == 4);
    assert("running"@.len() == 7);
    assert("connected"@.len() == 9);
    assert("error"@.len() == 5);
    assert("exit"@.len() == 4);
    assert("exit"@[0] == 'e' && "done"@[0] == 'd');
    assert("exit"@ != "done"@);
    assert forall|c: ResultClass| #[trigger] word_ok(result_word(c)) by {
        match c {
            ResultClass::Done => {},
            ResultClass::Running => {},
            ResultClass::Connected => {},
            ResultClass::Error => {},
            ResultClass::Exit => {},
        }
    }
}

proof fn lemma_async_words(c: AsyncClassV)
    requires
        match c {
            AsyncClassV::Other(w) => word_ok(w) && async_class_of(w) == c,
            _ => true,
        },
    ensures
        word_ok(async_word(c)),
        async_class_of(async_word(c)) == c,
{
    broadcast use vstd::string::group_string_axioms;

    reveal_strlit("running");
    reveal_strlit("stopped");
    reveal_strlit("thread-created");
    reveal_strlit("thread-group-started");
    reveal_strlit("thread-exited");
    reveal_strlit("thread-group-exited");
    reveal_strlit("thread-selected");
    reveal_strlit("cmd-param-changed");
    reveal_strlit("library-loaded");
    reveal_strlit("breakpoint-created");
    reveal_strlit("breakpoint-deleted");
    reveal_strlit("breakpoint-modified");
    assert("running"@.len() == 7 && "running"@[0] == 'r');
    assert("stopped"@.len() == 7 && "stopped"@[0] == 's');
    assert("thread-created"@.len() == 14 && "thread-created"@[0] == 't');
    assert("thread-group-started"@.len() == 20);
    assert("thread-exited"@.len() == 13);
    assert("thread-group-exited"@.len() == 19 && "thread-group-exited"@[0] == 't');
    assert("thread-selected"@.len() == 15);
    assert("cmd-param-changed"@.len() == 17);
    assert("library-loaded"@.len() == 14 && "library-loaded"@[0] == 'l');
    assert("breakpoint-created"@.len() == 18 && "breakpoint-created"@[11] == 'c');
    assert("breakpoint-deleted"@.len() == 18 && "breakpoint-deleted"@[11] == 'd');
    assert("breakpoint-modified"@.len() == 19 && "breakpoint-modified"@[0] == 'b');
}

/// Law: a well-formed record written in the wire form parses back to itself,
/// so that writing a parsed line again gives the line back.
pub proof fn lemma_parse_encoded_line(o: OutputV)
    requires
        wf_output(o),
    ensures
        parse_line(enc_line(o)) == o,
{
    let s = enc_line(o);
    match o {
        OutputV::Result { token, class, results } => {
            let es = results->Tuple_0;
            let w = result_word(class);
            lemma_known_words();
            let t = token_text(token);
            let rt = enc_results(es);
            assert(s == t + seq!['^'] + w + rt + seq!['\n']);
            let c = t.len() as int + 1 + w.len() as int;
            assert(s.subrange(0, c as int) =~= t + seq!['^'] + w);
            assert(rt.len() as int > 0 ==> rt[0] == ',');
            assert(s[c as int] == ',' || s[c as int] == '\n') by {
                if rt.len() as int > 0 {
                    assert(s[c as int] == rt[0]);
                } else {
                    assert(s[c as int] == '\n');
                }
            }
            lemma_head(s, token, '^', w);
            assert(s.subrange(c as int, c + rt.len() as int) =~= rt);
            assert(s[c + rt.len() as int] == '\n');
            lemma_results(es, s, c as int);
            lemma_collapse_unique(es);
            match class {
                ResultClass::Done => {},
                ResultClass::Running => {},
                ResultClass::Connected => {},
                ResultClass::Error => {},
                ResultClass::Exit => {},
            }
        },
        OutputV::Async { token, kind, class, results } => {
            let es = results->Tuple_0;
            let w = async_word(class);
            lemma_async_words(class);
            let t = token_text(token);
            let rt = enc_results(es);
            let k = kind_char(kind);
            assert(s == t + seq![k] + w + rt + seq!['\n']);
            let c = t.len() as int + 1 + w.len() as int;
            assert(s.subrange(0, c as int) =~= t + seq![k] + w);
            assert(rt.len() as int > 0 ==> rt[0] == ',');
            assert(s[c as int] == ',' || s[c as int] == '\n') by {
                if rt.len() as int > 0 {
                    assert(s[c as int] == rt[0]);
                } else {
                    assert(s[c as int] == '\n');
                }
            }
            lemma_head(s, token, k, w);
            assert(s.subrange(c as int, c + rt.len() as int) =~= rt);
            assert(s[c + rt.len() as int] == '\n');
            lemma_results(es, s, c as int);
            lemma_collapse_unique(es);
            assert(async_kind_of(k) == Some(kind));
        },
        OutputV::Stream { kind, data } => {
            let e = esc_str(data);
            assert(s == seq![stream_char(kind)] + (seq!['"'] + e + seq!['"']) + seq!['\n']);
            assert(s[0] == stream_char(kind));
            assert(s[1] == '"');
            lemma_digit_run(s, 0, 0);
            assert(s.subrange(2, 2 + e.len() as int + 1) =~= e + seq!['"']);
            lemma_str(data, s, 2);
        },
        OutputV::Prompt => {
            reveal_strlit("(gdb) ");
            lemma_digit_run(s, 0, 0);
            assert(s.subrange(0, 6) =~= "(gdb) "@);
        },
        OutputV::Else(_) => {},
    }
}

/// Law: a line that is not a well-formed record is kept whole.
pub proof fn lemma_unparsed_line_kept(s: Seq<char>)
    ensures
        parse_line(s) is Else ==> parse_line(s) == OutputV::Else(s),
{
}

} // verus!
