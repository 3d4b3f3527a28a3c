use vstd::prelude::*;

verus! {

/// The mathematical form of a parsed MI value.
pub enum Val {
    Str(Seq<char>),
    Tuple(Seq<(Seq<char>, Val)>),
    List(Seq<Val>),
}

/// A parsed MI value: a string, an ordered tuple of named values, or a list.
#[derive(Debug, PartialEq, Eq)]
pub enum MiValue {
    Str(String),
    Tuple(Vec<(String, MiValue)>),
    List(Vec<MiValue>),
}

impl MiValue {
    /// The mathematical form of this value.
    pub open spec fn as_val(&self) -> Val
        decreases self,
    {
        match self {
            MiValue::Str(s) => Val::Str(s@),
            MiValue::Tuple(es) => Val::Tuple(
                Seq::new(
                    es@.len(),
                    |i: int|
                        if 0 <= i < es@.len() {
                            (es@[i].0@, es@[i].1.as_val())
                        } else {
                            (Seq::empty(), Val::List(Seq::empty()))
                        },
                ),
            ),
            MiValue::List(vs) => Val::List(
                Seq::new(
                    vs@.len(),
                    |i: int|
                        if 0 <= i < vs@.len() {
                            vs@[i].as_val()
                        } else {
                            Val::List(Seq::empty())
                        },
                ),
            ),
        }
    }
}

impl View for MiValue {
    type V = Val;

    open spec fn view(&self) -> Val {
        self.as_val()
    }
}

/// The views of a sequence of values.
pub open spec fn vals_view(v: Seq<MiValue>) -> Seq<Val> {
    Seq::new(v.len(), |i: int| v[i]@)
}

/// The views of a sequence of named values.
pub open spec fn entries_view(e: Seq<(String, MiValue)>) -> Seq<(Seq<char>, Val)> {
    Seq::new(e.len(), |i: int| (e[i].0@, e[i].1@))
}

pub proof fn lemma_list_view(v: Vec<MiValue>)
    ensures
        MiValue::List(v)@ == Val::List(vals_view(v@)),
{
    let w = MiValue::List(v);
    if let Val::List(s) = w@ {
        assert(s =~= vals_view(v@));
    }
}

pub proof fn lemma_tuple_view(e: Vec<(String, MiValue)>)
    ensures
        MiValue::Tuple(e)@ == Val::Tuple(entries_view(e@)),
{
    let w = MiValue::Tuple(e);
    if let Val::Tuple(s) = w@ {
        assert(s.len() == e@.len());
        assert forall|i: int| 0 <= i < s.len() implies s[i] == entries_view(e@)[i] by {
            assert(s[i] == (e@[i].0@, e@[i].1@));
        }
        assert(s =~= entries_view(e@));
    }
}

/// The first index at or after `j` whose name is `k`, or -1.
pub open spec fn find_key(g: Seq<(Seq<char>, Seq<Val>)>, k: Seq<char>, j: int) -> int
    decreases g.len() - j,
{
    if j < 0 || j >= g.len() {
        -1
    } else if g[j].0 == k {
        j
    } else {
        find_key(g, k, j + 1)
    }
}

/// Adds one named value to the groups: appended to the group of its name, or
/// a new group at the end.
pub open spec fn group_add(g: Seq<(Seq<char>, Seq<Val>)>, e: (Seq<char>, Val)) -> Seq<
    (Seq<char>, Seq<Val>),
> {
    let idx = find_key(g, e.0, 0);
    if idx >= 0 {
        g.update(idx, (e.0, g[idx].1.push(e.1)))
    } else {
        g.push((e.0, seq![e.1]))
    }
}

/// The values of each name, in order, names in order of first occurrence.
pub open spec fn group(kvs: Seq<(Seq<char>, Val)>) -> Seq<(Seq<char>, Seq<Val>)>
    decreases kvs.len(),
{
    if kvs.len() == 0 {
        Seq::empty()
    } else {
        group_add(group(kvs.drop_last()), kvs.last())
    }
}

/// One occurrence stands for itself; repeated occurrences become a list.
pub open spec fn merge_group(e: (Seq<char>, Seq<Val>)) -> (Seq<char>, Val) {
    (
        e.0,
        if e.1.len() == 1 {
            e.1[0]
        } else {
            Val::List(e.1)
        },
    )
}

/// A tuple as read off the wire: a name that repeats holds the list of all its values.
pub open spec fn collapse(kvs: Seq<(Seq<char>, Val)>) -> Seq<(Seq<char>, Val)> {
    group(kvs).map_values(|e: (Seq<char>, Seq<Val>)| merge_group(e))
}

pub open spec fn groups_view(g: Seq<(String, Vec<MiValue>)>) -> Seq<(Seq<char>, Seq<Val>)> {
    Seq::new(g.len(), |i: int| (g[i].0@, vals_view(g[i].1@)))
}

proof fn lemma_find_key_bounds(g: Seq<(Seq<char>, Seq<Val>)>, k: Seq<char>, j: int)
    requires
        0 <= j,
    ensures
        -1 <= find_key(g, k, j) < g.len(),
        find_key(g, k, j) >= 0 ==> g[find_key(g, k, j)].0 == k && find_key(g, k, j) >= j,
        find_key(g, k, j) < 0 ==> forall|m: int| j <= m < g.len() ==> g[m].0 != k,
    decreases g.len() - j,
{
    if j < g.len() && g[j].0 != k {
        lemma_find_key_bounds(g, k, j + 1);
    }
}

proof fn lemma_find_key_first(g: Seq<(Seq<char>, Seq<Val>)>, k: Seq<char>, j: int, idx: int)
    requires
        0 <= j <= idx < g.len(),
        g[idx].0 == k,
        forall|m: int| j <= m < idx ==> g[m].0 != k,
    ensures
        find_key(g, k, j) == idx,
    decreases idx - j,
{
    if j < idx {
        lemma_find_key_first(g, k, j + 1, idx);
    }
}

/// Groups named values by name, keeping the order of first occurrence.
fn group_entries(kvs: Vec<(String, MiValue)>) -> (r: Vec<(String, Vec<MiValue>)>)
    ensures
        groups_view(r@) == group(entries_view(kvs@)),
{
    let ghost all = entries_view(kvs@);
    let len = kvs.len();
    let ghost n = len as nat;
    let mut rest = kvs;
    let mut groups: Vec<(String, Vec<MiValue>)> = Vec::new();
    let mut i: usize = 0;
    proof {
        assert(all.subrange(0, 0) =~= Seq::<(Seq<char>, Val)>::empty());
        assert(groups_view(groups@) =~= Seq::<(Seq<char>, Seq<Val>)>::empty());
    }
    while rest.len() > 0
        invariant
            i + rest@.len() == n,
            n == all.len(),
            n <= usize::MAX,
            entries_view(rest@) == all.subrange(i as int, n as int),
            groups_view(groups@) == group(all.subrange(0, i as int)),
        decreases rest@.len(),
    {
        let ghost before = groups_view(groups@);
        let ghost rest_before = rest@;
        let (k, v) = rest.remove(0);
        proof {
            assert forall|m: int| 0 <= m < rest@.len() implies entries_view(rest@)[m] == all.subrange(
                i + 1,
                n as int,
            )[m] by {
                assert(rest@[m] == rest_before[m + 1]);
                assert(entries_view(rest_before)[m + 1] == all.subrange(i as int, n as int)[m + 1]);
            }
            assert(entries_view(rest@) =~= all.subrange(i + 1, n as int));
            assert(all[i as int] == (k@, v@)) by {
                assert(entries_view(rest_before)[0] == all.subrange(i as int, n as int)[0]);
            }
            let pre = all.subrange(0, i + 1);
            assert(pre.drop_last() =~= all.subrange(0, i as int));
            assert(pre.last() == (k@, v@));
        }
        let mut idx: usize = 0;
        let mut found = false;
        while !found && idx < groups.len()
            invariant
                idx <= groups@.len(),
                before == groups_view(groups@),
                forall|m: int| 0 <= m < idx ==> before[m].0 != k@,
                found ==> idx < groups@.len() && before[idx as int].0 == k@,
            decreases groups@.len() - idx + (if found { 0int } else { 1int }),
        {
            if groups[idx].0 == k {
                found = true;
            } else {
                idx = idx + 1;
            }
        }
        proof {
            if found {
                lemma_find_key_first(before, k@, 0, idx as int);
            } else {
                lemma_find_key_bounds(before, k@, 0);
                if find_key(before, k@, 0) >= 0 {
                    let f = find_key(before, k@, 0);
                    assert(before[f].0 != k@);
                }
            }
        }
        if found {
            let (gk, mut gv) = groups.remove(idx);
            let ghost old_gv = gv@;
            gv.push(v);
            groups.insert(idx, (gk, gv));
            proof {
                assert(vals_view(gv@) =~= vals_view(old_gv).push(v@));
                assert(groups_view(groups@) =~= before.update(
                    idx as int,
                    (k@, before[idx as int].1.push(v@)),
                ));
            }
        } else {
            let mut gv: Vec<MiValue> = Vec::new();
            gv.push(v);
            groups.push((k, gv));
            proof {
                assert(vals_view(gv@) =~= seq![v@]);
                assert(groups_view(groups@) =~= before.push((k@, seq![v@])));
            }
        }
        i = i + 1;
    }
    proof {
        assert(all.subrange(0, n as int) =~= all);
    }
    groups
}

/// Builds the tuple for named values as read off the wire, keeping every
/// occurrence of a repeated name.
pub fn collapse_entries(kvs: Vec<(String, MiValue)>) -> (r: Vec<(String, MiValue)>)
    ensures
        entries_view(r@) == collapse(entries_view(kvs@)),
{
    let mut groups = group_entries(kvs);
    let ghost g = groups_view(groups@);
    let len = groups.len();
    let ghost n = len as nat;
    let mut out: Vec<(String, MiValue)> = Vec::new();
    let mut i: usize = 0;
    while groups.len() > 0
        invariant
            i + groups@.len() == n,
            n == g.len(),
            n <= usize::MAX,
            out@.len() == i,
            groups_view(groups@) == g.subrange(i as int, n as int),
            entries_view(out@) == g.subrange(0, i as int).map_values(
                |e: (Seq<char>, Seq<Val>)| merge_group(e),
            ),
        decreases groups@.len(),
    {
        let ghost groups_before = groups@;
        let (k, mut vs) = groups.remove(0);
        proof {
            assert forall|m: int| 0 <= m < groups@.len() implies groups_view(groups@)[m] == g.subrange(
                i + 1,
                n as int,
            )[m] by {
                assert(groups@[m] == groups_before[m + 1]);
                assert(groups_view(groups_before)[m + 1] == g.subrange(i as int, n as int)[m + 1]);
            }
            assert(groups_view(groups@) =~= g.subrange(i + 1, n as int));
            assert(g[i as int] == (k@, vals_view(vs@))) by {
                assert(groups_view(groups_before)[0] == g.subrange(i as int, n as int)[0]);
            }
        }
        let ghost vs_before = vs@;
        let merged = if vs.len() == 1 {
            let x = vs.pop().unwrap();
            proof {
                assert(x@ == vals_view(vs_before)[0]);
                assert(vals_view(vs_before).len() == 1);
            }
            x
        } else {
            proof {
                lemma_list_view(vs);
                assert(vals_view(vs@).len() != 1);
            }
            MiValue::List(vs)
        };
        proof {
            assert(merged@ == merge_group(g[i as int]).1);
        }
        let ghost out_before = out@;
        out.push((k, merged));
        proof {
            assert forall|m: int| 0 <= m < i implies entries_view(out@)[m] == entries_view(
                out_before,
            )[m] by {
                assert(out@[m] == out_before[m]);
            }
            let target = g.subrange(0, i + 1).map_values(|e: (Seq<char>, Seq<Val>)| merge_group(e));
            let prev = g.subrange(0, i as int).map_values(|e: (Seq<char>, Seq<Val>)| merge_group(e));
            assert forall|m: int| 0 <= m <= i implies entries_view(out@)[m] == target[m] by {
                if m < i {
                    assert(entries_view(out_before)[m] == prev[m]);
                } else {
                    assert(out@[m] == (k, merged));
                }
            }
            assert(entries_view(out@) =~= g.subrange(0, i + 1).map_values(
                |e: (Seq<char>, Seq<Val>)| merge_group(e),
            ));
        }
        i = i + 1;
    }
    proof {
        assert(g.subrange(0, n as int) =~= g);
    }
    out
}

/// The index of the first entry named `k` at or after `j`, or -1.
pub open spec fn entry_index(es: Seq<(Seq<char>, Val)>, k: Seq<char>, j: int) -> int
    decreases es.len() - j,
{
    if j < 0 || j >= es.len() {
        -1
    } else if es[j].0 == k {
        j
    } else {
        entry_index(es, k, j + 1)
    }
}

/// The value named `k` in a tuple (its first occurrence).
pub open spec fn field(v: Val, k: Seq<char>) -> Option<Val> {
    match v {
        Val::Tuple(es) => {
            let i = entry_index(es, k, 0);
            if 0 <= i < es.len() {
                Some(es[i].1)
            } else {
                None
            }
        },
        _ => None,
    }
}

/// The string named `k` in a tuple.
pub open spec fn str_field(v: Val, k: Seq<char>) -> Option<Seq<char>> {
    match field(v, k) {
        Some(Val::Str(t)) => Some(t),
        _ => None,
    }
}

/// Whether the value named `k`, if there is one, is a string.
pub open spec fn opt_str_ok(v: Val, k: Seq<char>) -> bool {
    field(v, k) is None || str_field(v, k) is Some
}

pub open spec fn str_view(s: Option<String>) -> Option<Seq<char>> {
    match s {
        Some(x) => Some(x@),
        None => None,
    }
}

proof fn lemma_entry_index(es: Seq<(Seq<char>, Val)>, k: Seq<char>, j: int)
    requires
        0 <= j,
    ensures
        -1 <= entry_index(es, k, j) < es.len(),
        entry_index(es, k, j) >= 0 ==> es[entry_index(es, k, j)].0 == k,
    decreases es.len() - j,
{
    if j < es.len() && es[j].0 != k {
        lemma_entry_index(es, k, j + 1);
    }
}

impl MiValue {
    /// The value named `key` in a tuple (its first occurrence); `None` for
    /// other values.
    pub fn get(&self, key: &str) -> (r: Option<&MiValue>)
        ensures
            match r {
                Some(x) => field(self@, key@) == Some(x@),
                None => field(self@, key@) is None,
            },
    {
        match self {
            MiValue::Tuple(es) => {
                proof {
                    lemma_tuple_view(*es);
                }
                let ghost ev = entries_view(es@);
                let mut k: usize = 0;
                while k < es.len()
                    invariant
                        k <= es@.len(),
                        ev == entries_view(es@),
                        self@ == Val::Tuple(ev),
                        entry_index(ev, key@, 0) == entry_index(ev, key@, k as int),
                    decreases es@.len() - k,
                {
                    if crate::text::str_eq(es[k].0.as_str(), key) {
                        proof {
                            assert(ev[k as int].0 == key@);
                        }
                        return Some(&es[k].1);
                    }
                    proof {
                        assert(ev[k as int].0 != key@);
                    }
                    k = k + 1;
                }
                None
            },
            _ => None,
        }
    }

    /// The characters of a string value.
    pub fn as_str(&self) -> (r: Option<&String>)
        ensures
            match r {
                Some(x) => self@ == Val::Str(x@),
                None => !(self@ is Str),
            },
    {
        match self {
            MiValue::Str(s) => Some(s),
            _ => None,
        }
    }

    /// The string named `key` in a tuple.
    pub fn get_str(&self, key: &str) -> (r: Option<&String>)
        ensures
            match r {
                Some(x) => str_field(self@, key@) == Some(x@),
                None => str_field(self@, key@) is None,
            },
    {
        match self.get(key) {
            Some(v) => v.as_str(),
            None => None,
        }
    }

    /// The elements of a list value.
    pub fn as_list(&self) -> (r: Option<&Vec<MiValue>>)
        ensures
            match r {
                Some(x) => self@ == Val::List(vals_view(x@)),
                None => !(self@ is List),
            },
    {
        match self {
            MiValue::List(v) => {
                proof {
                    lemma_list_view(*v);
                }
                Some(v)
            },
            _ => None,
        }
    }
}

} // verus!
