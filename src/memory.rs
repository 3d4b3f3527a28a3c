use vstd::prelude::*;

use crate::text::{
    all_hex, chars_of, copy_range, hex_value, parse_hex_wide, str_eq, string_of,
};

verus! {

/// A region of the inferior's address space.
#[derive(Debug, Clone)]
pub struct MemoryMapping {
    pub start_address: u64,
    pub end_address: u64,
    pub size: u64,
    pub offset: u64,
    pub permissions: Option<String>,
    pub path: Option<String>,
}

/// The mathematical form of a mapping.
pub struct MappingV {
    pub start_address: u64,
    pub end_address: u64,
    pub size: u64,
    pub offset: u64,
    pub permissions: Option<Seq<char>>,
    pub path: Option<Seq<char>>,
}

impl View for MemoryMapping {
    type V = MappingV;

    open spec fn view(&self) -> MappingV {
        MappingV {
            start_address: self.start_address,
            end_address: self.end_address,
            size: self.size,
            offset: self.offset,
            permissions: match self.permissions {
                Some(p) => Some(p@),
                None => None,
            },
            path: match self.path {
                Some(p) => Some(p@),
                None => None,
            },
        }
    }
}

/// Whether path `path` ends with the whole components of `child`, as
/// `std::path::Path::ends_with` decides.
pub uninterp spec fn path_ends_with(path: Seq<char>, child: Seq<char>) -> bool;

/// Relies on `std::path::Path::ends_with`: whether `child`'s components are
/// the last components of `path`.
#[verifier::external_body]
fn path_ends(path: &str, child: &str) -> (r: bool)
    ensures
        r == path_ends_with(path@, child@),
{
    std::path::Path::new(path).ends_with(child)
}

/// Whether `c` separates the columns of a mapping line: Unicode white space.
pub open spec fn is_space(c: char) -> bool {
    ('\u{9}' <= c && c <= '\u{d}') || c == ' ' || c == '\u{85}' || c == '\u{a0}' || c
        == '\u{1680}' || ('\u{2000}' <= c && c <= '\u{200a}') || c == '\u{2028}' || c
        == '\u{2029}' || c == '\u{202f}' || c == '\u{205f}' || c == '\u{3000}'
}

fn is_space_exec(c: char) -> (r: bool)
    ensures
        r == is_space(c),
{
    ('\u{9}' <= c && c <= '\u{d}') || c == ' ' || c == '\u{85}' || c == '\u{a0}' || c
        == '\u{1680}' || ('\u{2000}' <= c && c <= '\u{200a}') || c == '\u{2028}' || c
        == '\u{2029}' || c == '\u{202f}' || c == '\u{205f}' || c == '\u{3000}'
}

pub open spec fn skip_space(s: Seq<char>, i: int) -> int
    decreases s.len() - i,
{
    if 0 <= i < s.len() && is_space(s[i]) {
        skip_space(s, i + 1)
    } else {
        i
    }
}

pub open spec fn word_stop(s: Seq<char>, i: int) -> int
    decreases s.len() - i,
{
    if 0 <= i < s.len() && !is_space(s[i]) {
        word_stop(s, i + 1)
    } else {
        i
    }
}

/// The whitespace-separated columns of `s` from `i` on.
pub open spec fn fields_from(s: Seq<char>, i: int) -> Seq<Seq<char>>
    decreases s.len() - i,
{
    let a = skip_space(s, i);
    if i < 0 || a < i || a >= s.len() {
        Seq::empty()
    } else {
        let b = word_stop(s, a);
        if a < b <= s.len() {
            seq![s.subrange(a, b)] + fields_from(s, b)
        } else {
            Seq::empty()
        }
    }
}

/// A column holding a number after a two-character prefix (`0x`), in hexadecimal.
pub open spec fn column_value(p: Seq<char>) -> Option<u64> {
    if p.len() > 2 && all_hex(p, 2, p.len() as int) && hex_value(p, 2, (p.len() - 2) as nat)
        <= u64::MAX {
        Some(hex_value(p, 2, (p.len() - 2) as nat) as u64)
    } else {
        None
    }
}

/// A line of the layout with permissions: start, end, size, offset,
/// permissions, and a path when there is a sixth column.
pub open spec fn mapping_new_of(line: Seq<char>) -> Option<MappingV> {
    let f = fields_from(line, 0);
    if f.len() >= 5 && column_value(f[0]) is Some && column_value(f[1]) is Some && column_value(
        f[2],
    ) is Some && column_value(f[3]) is Some {
        Some(
            MappingV {
                start_address: column_value(f[0])->0,
                end_address: column_value(f[1])->0,
                size: column_value(f[2])->0,
                offset: column_value(f[3])->0,
                permissions: Some(f[4]),
                path: if f.len() >= 6 {
                    Some(f[5])
                } else {
                    None
                },
            },
        )
    } else {
        None
    }
}

/// A line of the layout without permissions: start, end, size, offset, path.
pub open spec fn mapping_old_of(line: Seq<char>) -> Option<MappingV> {
    let f = fields_from(line, 0);
    if f.len() >= 5 && column_value(f[0]) is Some && column_value(f[1]) is Some && column_value(
        f[2],
    ) is Some && column_value(f[3]) is Some {
        Some(
            MappingV {
                start_address: column_value(f[0])->0,
                end_address: column_value(f[1])->0,
                size: column_value(f[2])->0,
                offset: column_value(f[3])->0,
                permissions: None,
                path: Some(f[4]),
            },
        )
    } else {
        None
    }
}

fn skip_space_exec(s: &Vec<char>, i: usize) -> (r: usize)
    requires
        i <= s@.len(),
    ensures
        r as int == skip_space(s@, i as int),
        i <= r <= s@.len(),
{
    let mut k = i;
    while k < s.len() && is_space_exec(s[k])
        invariant
            i <= k <= s@.len(),
            skip_space(s@, i as int) == skip_space(s@, k as int),
        decreases s@.len() - k,
    {
        k = k + 1;
    }
    k
}

fn word_stop_exec(s: &Vec<char>, i: usize) -> (r: usize)
    requires
        i <= s@.len(),
    ensures
        r as int == word_stop(s@, i as int),
        i <= r <= s@.len(),
{
    let mut k = i;
    while k < s.len() && !is_space_exec(s[k])
        invariant
            i <= k <= s@.len(),
            word_stop(s@, i as int) == word_stop(s@, k as int),
        decreases s@.len() - k,
    {
        k = k + 1;
    }
    k
}

pub open spec fn chars_views(v: Seq<Vec<char>>) -> Seq<Seq<char>> {
    v.map_values(|x: Vec<char>| x@)
}

/// The whitespace-separated columns of a line.
fn fields(s: &Vec<char>) -> (r: Vec<Vec<char>>)
    ensures
        chars_views(r@) == fields_from(s@, 0),
{
    let mut acc: Vec<Vec<char>> = Vec::new();
    let mut k: usize = 0;
    proof {
        assert(chars_views(acc@) + fields_from(s@, 0) =~= fields_from(s@, 0));
    }
    loop
        invariant
            k <= s@.len(),
            fields_from(s@, 0) == chars_views(acc@) + fields_from(s@, k as int),
        decreases s@.len() - k,
    {
        let a = skip_space_exec(s, k);
        if a >= s.len() {
            proof {
                assert(chars_views(acc@) + Seq::<Seq<char>>::empty() =~= chars_views(acc@));
            }
            return acc;
        }
        let b = word_stop_exec(s, a);
        if a >= b {
            proof {
                assert(chars_views(acc@) + Seq::<Seq<char>>::empty() =~= chars_views(acc@));
            }
            return acc;
        }
        let w = copy_range(s, a, b);
        let ghost before = chars_views(acc@);
        acc.push(w);
        proof {
            assert(chars_views(acc@) =~= before.push(s@.subrange(a as int, b as int)));
            assert(before + (seq![s@.subrange(a as int, b as int)] + fields_from(s@, b as int))
                =~= chars_views(acc@) + fields_from(s@, b as int));
        }
        k = b;
    }
}

fn column_value_exec(p: &Vec<char>) -> (r: Option<u64>)
    ensures
        r == column_value(p@),
{
    if p.len() > 2 {
        match parse_hex_wide(p, 2, p.len()) {
            Some(v) => {
                if v <= u64::MAX as u128 {
                    Some(v as u64)
                } else {
                    None
                }
            },
            None => None,
        }
    } else {
        None
    }
}

fn mapping_from_fields(f: &Vec<Vec<char>>, with_permissions: bool) -> (r: Option<MemoryMapping>)
    ensures
        match r {
            Some(m) => if with_permissions {
                mapping_new_of_fields(chars_views(f@)) == Some(m@)
            } else {
                mapping_old_of_fields(chars_views(f@)) == Some(m@)
            },
            None => if with_permissions {
                mapping_new_of_fields(chars_views(f@)) is None
            } else {
                mapping_old_of_fields(chars_views(f@)) is None
            },
        },
{
    if f.len() < 5 {
        return None;
    }
    let start = column_value_exec(&f[0]);
    let end = column_value_exec(&f[1]);
    let size = column_value_exec(&f[2]);
    let offset = column_value_exec(&f[3]);
    match (start, end, size, offset) {
        (Some(a), Some(b), Some(c), Some(d)) => {
            if with_permissions {
                let path = if f.len() >= 6 {
                    Some(string_of(&f[5]))
                } else {
                    None
                };
                Some(
                    MemoryMapping {
                        start_address: a,
                        end_address: b,
                        size: c,
                        offset: d,
                        permissions: Some(string_of(&f[4])),
                        path,
                    },
                )
            } else {
                Some(
                    MemoryMapping {
                        start_address: a,
                        end_address: b,
                        size: c,
                        offset: d,
                        permissions: None,
                        path: Some(string_of(&f[4])),
                    },
                )
            }
        },
        _ => None,
    }
}

pub open spec fn mapping_new_of_fields(f: Seq<Seq<char>>) -> Option<MappingV> {
    if f.len() >= 5 && column_value(f[0]) is Some && column_value(f[1]) is Some && column_value(
        f[2],
    ) is Some && column_value(f[3]) is Some {
        Some(
            MappingV {
                start_address: column_value(f[0])->0,
                end_address: column_value(f[1])->0,
                size: column_value(f[2])->0,
                offset: column_value(f[3])->0,
                permissions: Some(f[4]),
                path: if f.len() >= 6 {
                    Some(f[5])
                } else {
                    None
                },
            },
        )
    } else {
        None
    }
}

pub open spec fn mapping_old_of_fields(f: Seq<Seq<char>>) -> Option<MappingV> {
    if f.len() >= 5 && column_value(f[0]) is Some && column_value(f[1]) is Some && column_value(
        f[2],
    ) is Some && column_value(f[3]) is Some {
        Some(
            MappingV {
                start_address: column_value(f[0])->0,
                end_address: column_value(f[1])->0,
                size: column_value(f[2])->0,
                offset: column_value(f[3])->0,
                permissions: None,
                path: Some(f[4]),
            },
        )
    } else {
        None
    }
}

fn mapping_of_chars(line: &Vec<char>, with_permissions: bool) -> (r: Option<MemoryMapping>)
    ensures
        match r {
            Some(m) => if with_permissions {
                mapping_new_of(line@) == Some(m@)
            } else {
                mapping_old_of(line@) == Some(m@)
            },
            None => if with_permissions {
                mapping_new_of(line@) is None
            } else {
                mapping_old_of(line@) is None
            },
        },
{
    let f = fields(line);
    mapping_from_fields(&f, with_permissions)
}

fn invalid_line(line: &str) -> (r: String) {
    let mut out: Vec<char> = Vec::new();
    crate::text::push_all(&mut out, "Invalid line format: ");
    crate::text::push_all(&mut out, line);
    string_of(&out)
}

impl MemoryMapping {
    /// Mapping is the stack
    pub fn is_stack(&self) -> (r: bool)
        ensures
            r == (self@.path == Some("[stack]"@)),
    {
        match &self.path {
            Some(p) => str_eq(p.as_str(), "[stack]"),
            None => false,
        }
    }

    /// Mapping is the heap
    pub fn is_heap(&self) -> (r: bool)
        ensures
            r == (self@.path == Some("[heap]"@)),
    {
        match &self.path {
            Some(p) => str_eq(p.as_str(), "[heap]"),
            None => false,
        }
    }

    /// Mapping's path ends with the components of `filepath`, so that a file
    /// given relative to some directory matches the mapping's full path.
    pub fn is_path(&self, filepath: &str) -> (r: bool)
        ensures
            r == (self@.path is Some && path_ends_with(self@.path->0, filepath@)),
    {
        match &self.path {
            Some(p) => path_ends(p.as_str(), filepath),
            None => false,
        }
    }

    /// Mapping's permissions hold `x`.
    pub fn is_exec(&self) -> (r: bool)
        ensures
            r == (self@.permissions is Some && self@.permissions->0.contains('x')),
    {
        match &self.permissions {
            Some(p) => {
                let c = chars_of(p.as_str());
                let mut k: usize = 0;
                while k < c.len()
                    invariant
                        k <= c@.len(),
                        c@ == p@,
                        self@.permissions == Some(c@),
                        forall|m: int| 0 <= m < k ==> c@[m] != 'x',
                    decreases c@.len() - k,
                {
                    if c[k] == 'x' {
                        proof {
                            assert(self@.permissions->0 == p@);
                            assert(p@[k as int] == 'x');
                            assert(self@.permissions->0.contains('x'));
                        }
                        return true;
                    }
                    k = k + 1;
                }
                proof {
                    assert(self@.permissions->0 == p@);
                }
                false
            },
            None => false,
        }
    }

    /// Mapping contains `addr`: start inclusive, end exclusive.
    pub fn contains(&self, addr: u64) -> (r: bool)
        ensures
            r == (self.start_address <= addr && addr < self.end_address),
    {
        self.start_address <= addr && addr < self.end_address
    }

    /// Reads a line of the layout with permissions.
    pub fn from_str_new(line: &str) -> (r: Result<MemoryMapping, String>)
        ensures
            match r {
                Ok(m) => mapping_new_of(line@) == Some(m@),
                Err(_) => mapping_new_of(line@) is None,
            },
    {
        let c = chars_of(line);
        match mapping_of_chars(&c, true) {
            Some(m) => Ok(m),
            None => Err(invalid_line(line)),
        }
    }

    /// Reads a line of the layout without permissions.
    pub fn from_str_old(line: &str) -> (r: Result<MemoryMapping, String>)
        ensures
            match r {
                Ok(m) => mapping_old_of(line@) == Some(m@),
                Err(_) => mapping_old_of(line@) is None,
            },
    {
        let c = chars_of(line);
        match mapping_of_chars(&c, false) {
            Some(m) => Ok(m),
            None => Err(invalid_line(line)),
        }
    }
}

/// The first index at or after `i` holding a line break, or the length.
pub open spec fn nl_at(s: Seq<char>, i: int) -> int
    decreases s.len() - i,
{
    if 0 <= i < s.len() && s[i] != '\n' {
        nl_at(s, i + 1)
    } else {
        i
    }
}

/// A line without its trailing carriage return.
pub open spec fn strip_cr(l: Seq<char>) -> Seq<char> {
    if l.len() > 0 && l.last() == '\r' {
        l.drop_last()
    } else {
        l
    }
}

/// The lines of `s` from `i` on, as `str::lines` splits them.
pub open spec fn lines_from(s: Seq<char>, i: int) -> Seq<Seq<char>>
    decreases s.len() + 1 - i,
{
    if i < 0 || i >= s.len() {
        Seq::empty()
    } else {
        let e = nl_at(s, i);
        if i <= e <= s.len() {
            seq![strip_cr(s.subrange(i, e))] + lines_from(s, e + 1)
        } else {
            Seq::empty()
        }
    }
}

/// The mappings that the lines describe, lines that describe none left out.
pub open spec fn mappings_of(lines: Seq<Seq<char>>, with_permissions: bool) -> Seq<MappingV>
    decreases lines.len(),
{
    if lines.len() == 0 {
        Seq::empty()
    } else {
        let m = if with_permissions {
            mapping_new_of(lines[0])
        } else {
            mapping_old_of(lines[0])
        };
        match m {
            Some(x) => seq![x] + mappings_of(lines.drop_first(), with_permissions),
            None => mappings_of(lines.drop_first(), with_permissions),
        }
    }
}

/// The mappings of a table: its first line is the header.
pub open spec fn table_mappings(s: Seq<char>, with_permissions: bool) -> Seq<MappingV> {
    let l = lines_from(s, 0);
    if l.len() == 0 {
        Seq::empty()
    } else {
        mappings_of(l.drop_first(), with_permissions)
    }
}

pub open spec fn mappings_view(v: Seq<MemoryMapping>) -> Seq<MappingV> {
    v.map_values(|m: MemoryMapping| m@)
}

fn nl_exec(s: &Vec<char>, i: usize) -> (r: usize)
    requires
        i <= s@.len(),
    ensures
        r as int == nl_at(s@, i as int),
        i <= r <= s@.len(),
{
    let mut k = i;
    while k < s.len() && s[k] != '\n'
        invariant
            i <= k <= s@.len(),
            nl_at(s@, i as int) == nl_at(s@, k as int),
        decreases s@.len() - k,
    {
        k = k + 1;
    }
    k
}

fn line_at(s: &Vec<char>, i: usize, e: usize) -> (r: Vec<char>)
    requires
        i <= e <= s@.len(),
    ensures
        r@ == strip_cr(s@.subrange(i as int, e as int)),
{
    let mut l = copy_range(s, i, e);
    if l.len() > 0 && l[l.len() - 1] == '\r' {
        let _ = l.pop();
        proof {
            assert(l@ =~= s@.subrange(i as int, e as int).drop_last());
        }
    }
    l
}

fn parse_table(input: &str, with_permissions: bool) -> (r: Vec<MemoryMapping>)
    ensures
        mappings_view(r@) == table_mappings(input@, with_permissions),
{
    let s = chars_of(input);
    let mut acc: Vec<MemoryMapping> = Vec::new();
    if s.len() == 0 {
        proof {
            assert(mappings_view(acc@) =~= Seq::<MappingV>::empty());
        }
        return acc;
    }
    let first = nl_exec(&s, 0);
    if first >= s.len() {
        proof {
            assert(lines_from(s@, first + 1) =~= Seq::<Seq<char>>::empty());
            assert(lines_from(s@, 0) =~= seq![strip_cr(s@.subrange(0, first as int))]);
            assert(lines_from(s@, 0).drop_first() =~= Seq::<Seq<char>>::empty());
            assert(mappings_view(acc@) =~= Seq::<MappingV>::empty());
        }
        return acc;
    }
    let mut k = first + 1;
    proof {
        assert(lines_from(s@, 0).drop_first() =~= lines_from(s@, k as int));
        assert(mappings_view(acc@) + mappings_of(lines_from(s@, k as int), with_permissions)
            =~= mappings_of(lines_from(s@, k as int), with_permissions));
    }
    loop
        invariant
            k <= s@.len(),
            s@ == input@,
            table_mappings(input@, with_permissions) == mappings_view(acc@) + mappings_of(
                lines_from(s@, k as int),
                with_permissions,
            ),
        decreases s@.len() - k,
    {
        if k >= s.len() {
            proof {
                assert(mappings_view(acc@) + Seq::<MappingV>::empty() =~= mappings_view(acc@));
            }
            return acc;
        }
        let e = nl_exec(&s, k);
        let line = line_at(&s, k, e);
        let ghost rest = lines_from(s@, k as int);
        proof {
            assert(rest[0] == line@);
            assert(rest.drop_first() =~= lines_from(s@, e + 1));
        }
        let ghost before = mappings_view(acc@);
        match mapping_of_chars(&line, with_permissions) {
            Some(m) => {
                let ghost mv = m@;
                acc.push(m);
                proof {
                    assert(mappings_view(acc@) =~= before.push(mv));
                    assert(before + (seq![mv] + mappings_of(lines_from(s@, e + 1), with_permissions))
                        =~= mappings_view(acc@) + mappings_of(lines_from(s@, e + 1), with_permissions));
                }
            },
            None => {},
        }
        if e >= s.len() {
            proof {
                assert(lines_from(s@, e + 1) =~= Seq::<Seq<char>>::empty());
                assert(mappings_view(acc@) + Seq::<MappingV>::empty() =~= mappings_view(acc@));
            }
            return acc;
        }
        k = e + 1;
    }
}

/// Reads a mapping table of the layout with permissions; its first line is
/// the header, and lines that describe no mapping are left out.
pub fn parse_memory_mappings_new(input: &str) -> (r: Vec<MemoryMapping>)
    ensures
        mappings_view(r@) == table_mappings(input@, true),
{
    parse_table(input, true)
}

/// Reads a mapping table of the layout without permissions; its first line
/// is the header, and lines that describe no mapping are left out.
pub fn parse_memory_mappings_old(input: &str) -> (r: Vec<MemoryMapping>)
    ensures
        mappings_view(r@) == table_mappings(input@, false),
{
    parse_table(input, false)
}

} // verus!
