use vstd::prelude::*;

use crate::text::{chars_of, digit_char, digit_char_exec, string_of};
use crate::value::{entries_view, lemma_list_view, lemma_tuple_view, vals_view, MiValue, Val};

verus! {

/// One character inside a JSON string.
pub open spec fn json_char(c: char) -> Seq<char> {
    if c == '"' {
        seq!['\\', '"']
    } else if c == '\\' {
        seq!['\\', '\\']
    } else if c == '\n' {
        seq!['\\', 'n']
    } else if c == '\r' {
        seq!['\\', 'r']
    } else if c == '\t' {
        seq!['\\', 't']
    } else if c == '\u{8}' {
        seq!['\\', 'b']
    } else if c == '\u{c}' {
        seq!['\\', 'f']
    } else if (c as u32) < 0x20 {
        seq![
            '\\',
            'u',
            '0',
            '0',
            digit_char((c as u32 / 16) as nat),
            digit_char((c as u32 % 16) as nat),
        ]
    } else {
        seq![c]
    }
}

pub open spec fn json_body(t: Seq<char>) -> Seq<char>
    decreases t.len(),
{
    if t.len() == 0 {
        Seq::empty()
    } else {
        json_body(t.drop_last()) + json_char(t.last())
    }
}

/// A JSON string literal.
pub open spec fn json_str(t: Seq<char>) -> Seq<char> {
    seq!['"'] + json_body(t) + seq!['"']
}

/// Parts separated by commas.
pub open spec fn commas(parts: Seq<Seq<char>>) -> Seq<char>
    decreases parts.len(),
{
    if parts.len() == 0 {
        Seq::empty()
    } else if parts.len() == 1 {
        parts[0]
    } else {
        commas(parts.drop_last()) + seq![','] + parts.last()
    }
}

/// A value as compact JSON: strings, objects in the tuple's order, arrays.
pub open spec fn json_of(v: Val) -> Seq<char>
    decreases v, 1int,
{
    match v {
        Val::Str(t) => json_str(t),
        Val::Tuple(es) => seq!['{'] + commas(json_entries(es)) + seq!['}'],
        Val::List(vs) => seq!['['] + commas(json_items(vs)) + seq![']'],
    }
}

pub open spec fn json_items(vs: Seq<Val>) -> Seq<Seq<char>>
    decreases vs, 0int,
{
    Seq::new(
        vs.len(),
        |i: int|
            if 0 <= i < vs.len() {
                json_of(vs[i])
            } else {
                Seq::empty()
            },
    )
}

pub open spec fn json_entries(es: Seq<(Seq<char>, Val)>) -> Seq<Seq<char>>
    decreases es, 0int,
{
    Seq::new(
        es.len(),
        |i: int|
            if 0 <= i < es.len() {
                json_str(es[i].0) + seq![':'] + json_of(es[i].1)
            } else {
                Seq::empty()
            },
    )
}

fn push_json_str(out: &mut Vec<char>, s: &String)
    ensures
        final(out)@ == old(out)@ + json_str(s@),
{
    let c = chars_of(s.as_str());
    let ghost start = out@;
    out.push('"');
    let mut k: usize = 0;
    while k < c.len()
        invariant
            k <= c@.len(),
            c@ == s@,
            out@ == start + seq!['"'] + json_body(c@.subrange(0, k as int)),
        decreases c@.len() - k,
    {
        let x = c[k];
        let ghost before = out@;
        let u = x as u32;
        if x == '"' {
            out.push('\\');
            out.push('"');
        } else if x == '\\' {
            out.push('\\');
            out.push('\\');
        } else if x == '\n' {
            out.push('\\');
            out.push('n');
        } else if x == '\r' {
            out.push('\\');
            out.push('r');
        } else if x == '\t' {
            out.push('\\');
            out.push('t');
        } else if x == '\u{8}' {
            out.push('\\');
            out.push('b');
        } else if x == '\u{c}' {
            out.push('\\');
            out.push('f');
        } else if u < 0x20 {
            out.push('\\');
            out.push('u');
            out.push('0');
            out.push('0');
            out.push(digit_char_exec((u / 16) as u64));
            out.push(digit_char_exec((u % 16) as u64));
        } else {
            out.push(x);
        }
        proof {
            let pre = c@.subrange(0, k + 1);
            assert(pre.drop_last() =~= c@.subrange(0, k as int));
            assert(out@ =~= before + json_char(x));
            assert(out@ =~= start + seq!['"'] + json_body(pre));
        }
        k = k + 1;
    }
    out.push('"');
    proof {
        assert(c@.subrange(0, c@.len() as int) =~= c@);
        assert(out@ =~= start + json_str(s@));
    }
}

fn push_dump(out: &mut Vec<char>, v: &MiValue)
    ensures
        final(out)@ == old(out)@ + json_of(v@),
    decreases v,
{
    let ghost start = out@;
    match v {
        MiValue::Str(t) => {
            push_json_str(out, t);
        },
        MiValue::List(vs) => {
            proof {
                lemma_list_view(*vs);
                assert(decreases_to!(*v => *vs));
            }
            let ghost parts = json_items(vals_view(vs@));
            out.push('[');
            let mut k: usize = 0;
            proof {
                assert(parts.subrange(0, 0) =~= Seq::<Seq<char>>::empty());
            }
            while k < vs.len()
                invariant
                    k <= vs@.len(),
                    *v == MiValue::List(*vs),
                    decreases_to!(*v => *vs),
                    parts == json_items(vals_view(vs@)),
                    out@ == start + seq!['['] + commas(parts.subrange(0, k as int)),
                decreases vs@.len() - k,
            {
                let ghost before = out@;
                if k > 0 {
                    out.push(',');
                }
                proof {
                    vstd::std_specs::vec::axiom_vec_index_decreases(*vs, k as int);
                }
                push_dump(out, &vs[k]);
                proof {
                    let pre = parts.subrange(0, k + 1);
                    assert(pre.drop_last() =~= parts.subrange(0, k as int));
                    assert(pre.last() == json_of(vs@[k as int]@));
                    if k == 0 {
                        assert(out@ =~= start + seq!['['] + commas(pre));
                    } else {
                        assert(out@ =~= start + seq!['['] + commas(pre));
                    }
                }
                k = k + 1;
            }
            out.push(']');
            proof {
                assert(parts.subrange(0, vs@.len() as int) =~= parts);
                assert(out@ =~= start + json_of(v@));
            }
        },
        MiValue::Tuple(es) => {
            proof {
                lemma_tuple_view(*es);
                assert(decreases_to!(*v => *es));
            }
            let ghost parts = json_entries(entries_view(es@));
            out.push('{');
            let mut k: usize = 0;
            proof {
                assert(parts.subrange(0, 0) =~= Seq::<Seq<char>>::empty());
            }
            while k < es.len()
                invariant
                    k <= es@.len(),
                    *v == MiValue::Tuple(*es),
                    decreases_to!(*v => *es),
                    parts == json_entries(entries_view(es@)),
                    out@ == start + seq!['{'] + commas(parts.subrange(0, k as int)),
                decreases es@.len() - k,
            {
                let ghost before = out@;
                if k > 0 {
                    out.push(',');
                }
                let ghost mid = out@;
                push_json_str(out, &es[k].0);
                out.push(':');
                proof {
                    vstd::std_specs::vec::axiom_vec_index_decreases(*es, k as int);
                    assert(decreases_to!(es[k as int] => es[k as int].1));
                }
                push_dump(out, &es[k].1);
                proof {
                    let pre = parts.subrange(0, k + 1);
                    assert(pre.drop_last() =~= parts.subrange(0, k as int));
                    assert(pre.last() == json_str(es@[k as int].0@) + seq![':'] + json_of(
                        es@[k as int].1@,
                    ));
                    assert(out@ =~= mid + pre.last());
                    assert(out@ =~= start + seq!['{'] + commas(pre));
                }
                k = k + 1;
            }
            out.push('}');
            proof {
                assert(parts.subrange(0, es@.len() as int) =~= parts);
                assert(out@ =~= start + json_of(v@));
            }
        },
    }
}

impl MiValue {
    /// The value as compact JSON, tuples keeping their order.
    pub fn dump(&self) -> (r: String)
        ensures
            r@ == json_of(self@),
    {
        let mut out: Vec<char> = Vec::new();
        push_dump(&mut out, self);
        proof {
            assert(out@ =~= json_of(self@));
        }
        string_of(&out)
    }
}

} // verus!
