use vstd::prelude::*;

use crate::memory::{path_ends_with, MappingV, MemoryMapping};
use crate::models::MemoryType;

verus! {

/// What the dashboard shows.
#[derive(Debug, Copy, Clone, PartialEq, Eq, Structural)]
pub enum Mode {
    All,
    OnlyRegister,
    OnlyStack,
    OnlyInstructions,
    OnlyOutput,
    OnlyMapping,
    OnlyHexdump,
}

impl Mode {
    /// The next mode, in the order of the enum, back to `All` after the last.
    pub fn next(&self) -> (r: Mode)
        ensures
            r == match *self {
                Mode::All => Mode::OnlyRegister,
                Mode::OnlyRegister => Mode::OnlyStack,
                Mode::OnlyStack => Mode::OnlyInstructions,
                Mode::OnlyInstructions => Mode::OnlyOutput,
                Mode::OnlyOutput => Mode::OnlyMapping,
                Mode::OnlyMapping => Mode::OnlyHexdump,
                Mode::OnlyHexdump => Mode::All,
            },
    {
        match self {
            Mode::All => Mode::OnlyRegister,
            Mode::OnlyRegister => Mode::OnlyStack,
            Mode::OnlyStack => Mode::OnlyInstructions,
            Mode::OnlyInstructions => Mode::OnlyOutput,
            Mode::OnlyOutput => Mode::OnlyMapping,
            Mode::OnlyMapping => Mode::OnlyHexdump,
            Mode::OnlyHexdump => Mode::All,
        }
    }
}

/// Byte order.
#[derive(Debug, Copy, Clone, PartialEq, Eq, Structural)]
pub enum Endian {
    /// Little endian
    Little,
    /// Big endian
    Big,
}

/// What `val` points into, decided by the first mapping that contains it and
/// is the stack, the heap, the file or executable; unknown for 0.
pub open spec fn classify(ms: Seq<MappingV>, val: u64, filepath: Seq<char>) -> MemoryType
    decreases ms.len(),
{
    if val == 0 || ms.len() == 0 {
        MemoryType::Unknown
    } else {
        let r = ms[0];
        if r.start_address <= val && val < r.end_address {
            if r.path == Some("[stack]"@) {
                MemoryType::Stack
            } else if r.path == Some("[heap]"@) {
                MemoryType::Heap
            } else if (r.path is Some && path_ends_with(r.path->0, filepath)) || (
            r.permissions is Some && r.permissions->0.contains('x')) {
                MemoryType::Exec
            } else {
                classify(ms.drop_first(), val, filepath)
            }
        } else {
            classify(ms.drop_first(), val, filepath)
        }
    }
}

pub open spec fn maps_view(ms: Seq<MemoryMapping>) -> Seq<MappingV> {
    ms.map_values(|m: MemoryMapping| m@)
}

/// Classifies `val` against the known mappings.
pub fn classify_val(memory_map: &Option<Vec<MemoryMapping>>, val: u64, filepath: &str) -> (r:
    MemoryType)
    ensures
        r == match memory_map {
            Some(ms) => classify(maps_view(ms@), val, filepath@),
            None => MemoryType::Unknown,
        },
{
    match memory_map {
        None => MemoryType::Unknown,
        Some(ms) => {
            if val == 0 {
                return MemoryType::Unknown;
            }
            let ghost all = maps_view(ms@);
            let mut k: usize = 0;
            proof {
                assert(all.subrange(0, all.len() as int) =~= all);
            }
            while k < ms.len()
                invariant
                    k <= ms@.len(),
                    memory_map is Some,
                    memory_map->0 == *ms,
                    all == maps_view(ms@),
                    val != 0,
                    classify(all, val, filepath@) == classify(all.subrange(k as int, all.len() as int), val, filepath@),
                decreases ms@.len() - k,
            {
                let r = &ms[k];
                let ghost sub = all.subrange(k as int, all.len() as int);
                proof {
                    assert(sub[0] == r@);
                    assert(sub.drop_first() =~= all.subrange(k + 1, all.len() as int));
                }
                if r.contains(val) {
                    if r.is_stack() {
                        proof {
                            assert(classify(sub, val, filepath@) == MemoryType::Stack);
                        }
                        return MemoryType::Stack;
                    }
                    if r.is_heap() {
                        proof {
                            assert(classify(sub, val, filepath@) == MemoryType::Heap);
                        }
                        return MemoryType::Heap;
                    }
                    if r.is_path(filepath) || r.is_exec() {
                        proof {
                            assert(classify(sub, val, filepath@) == MemoryType::Exec);
                        }
                        return MemoryType::Exec;
                    }
                }
                k = k + 1;
            }
            proof {
                assert(all.subrange(k as int, all.len() as int).len() == 0);
            }
            MemoryType::Unknown
        },
    }
}

/// The index of the first mapping that is the heap.
pub fn find_first_heap(memory_map: &Option<Vec<MemoryMapping>>) -> (r: Option<usize>)
    ensures
        match r {
            Some(i) => memory_map is Some && i < memory_map->0@.len() && memory_map->0@[i as int]@.path
                == Some("[heap]"@) && forall|j: int|
                0 <= j < i ==> memory_map->0@[j]@.path != Some("[heap]"@),
            None => memory_map is None || forall|j: int|
                0 <= j < memory_map->0@.len() ==> memory_map->0@[j]@.path != Some("[heap]"@),
        },
{
    match memory_map {
        None => None,
        Some(ms) => {
            let mut k: usize = 0;
            while k < ms.len()
                invariant
                    k <= ms@.len(),
                    memory_map is Some,
                    memory_map->0 == *ms,
                    forall|j: int| 0 <= j < k ==> ms@[j]@.path != Some("[heap]"@),
                decreases ms@.len() - k,
            {
                if ms[k].is_heap() {
                    return Some(k);
                }
                k = k + 1;
            }
            None
        },
    }
}

/// The index of the first mapping that is the stack.
pub fn find_first_stack(memory_map: &Option<Vec<MemoryMapping>>) -> (r: Option<usize>)
    ensures
        match r {
            Some(i) => memory_map is Some && i < memory_map->0@.len() && memory_map->0@[i as int]@.path
                == Some("[stack]"@) && forall|j: int|
                0 <= j < i ==> memory_map->0@[j]@.path != Some("[stack]"@),
            None => memory_map is None || forall|j: int|
                0 <= j < memory_map->0@.len() ==> memory_map->0@[j]@.path != Some("[stack]"@),
        },
{
    match memory_map {
        None => None,
        Some(ms) => {
            let mut k: usize = 0;
            while k < ms.len()
                invariant
                    k <= ms@.len(),
                    memory_map is Some,
                    memory_map->0 == *ms,
                    forall|j: int| 0 <= j < k ==> ms@[j]@.path != Some("[stack]"@),
                decreases ms@.len() - k,
            {
                if ms[k].is_stack() {
                    return Some(k);
                }
                k = k + 1;
            }
            None
        },
    }
}

} // verus!
