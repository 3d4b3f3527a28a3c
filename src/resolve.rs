use std::collections::VecDeque;

use vstd::prelude::*;

use crate::models::Register;

verus! {

/// A chain of values followed from a register or stack slot, cut short when
/// it starts to repeat.
#[derive(Debug, Clone)]
pub struct ResolveSymbol {
    pub map: VecDeque<u64>,
    pub repeated_pattern: bool,
    pub final_assembly: String,
}

/// Whether the windows of length `n` at `a` and `b` hold the same values.
pub open spec fn windows_equal(m: Seq<u64>, a: int, b: int, n: int) -> bool {
    m.subrange(a, a + n) == m.subrange(b, b + n)
}

/// Whether a chain repeats: two equal values when it has two; otherwise two
/// equal windows of some length from 2 to half the chain, the first starting
/// before the last window's start.
pub open spec fn has_repeat(m: Seq<u64>) -> bool {
    if m.len() == 1 {
        false
    } else if m.len() == 2 {
        m[0] == m[1]
    } else {
        exists|n: int, a: int, b: int|
            2 <= n <= m.len() / 2 && 0 <= a < m.len() - n && a < b <= m.len() - n
                && #[trigger] windows_equal(m, a, b, n)
    }
}

impl ResolveSymbol {
    /// An empty chain.
    pub fn new() -> (r: ResolveSymbol)
        ensures
            r.map@.len() == 0,
            !r.repeated_pattern,
            r.final_assembly@.len() == 0,
    {
        ResolveSymbol { map: VecDeque::new(), repeated_pattern: false, final_assembly: String::new() }
    }

    /// Appends `value` unless that makes the chain repeat; then the chain is
    /// left as it was, marked as repeating, and `false` is returned.
    pub fn try_push(&mut self, value: u64) -> (r: bool)
        requires
            old(self).map@.len() < usize::MAX,
        ensures
            r == !has_repeat(old(self).map@.push(value)),
            r ==> final(self).map@ == old(self).map@.push(value) && final(self).repeated_pattern
                == old(self).repeated_pattern,
            !r ==> final(self).map@ == old(self).map@ && final(self).repeated_pattern,
            final(self).final_assembly == old(self).final_assembly,
    {
        self.map.push_back(value);
        if self.has_repeating_pattern() {
            self.repeated_pattern = true;
            let _ = self.map.pop_back();
            proof {
                assert(self.map@ =~= old(self).map@);
            }
            return false;
        }
        true
    }

    fn windows_match(&self, a: usize, b: usize, n: usize) -> (r: bool)
        requires
            a + n <= self.map@.len(),
            b + n <= self.map@.len(),
        ensures
            r == windows_equal(self.map@, a as int, b as int, n as int),
    {
        let len = self.map.len();
        let mut j: usize = 0;
        while j < n
            invariant
                len == self.map@.len(),
                j <= n,
                a + n <= self.map@.len(),
                b + n <= self.map@.len(),
                forall|i: int| 0 <= i < j ==> #[trigger] self.map@.subrange(a as int, a + n)[i] == self.map@.subrange(b as int, b + n)[i],
            decreases n - j,
        {
            if self.map[a + j] != self.map[b + j] {
                proof {
                    assert(self.map@.subrange(a as int, a + n)[j as int] != self.map@.subrange(
                        b as int,
                        b + n,
                    )[j as int]);
                }
                return false;
            }
            proof {
                assert(self.map@.subrange(a as int, a + n)[j as int] == self.map@[a + j]);
                assert(self.map@.subrange(b as int, b + n)[j as int] == self.map@[b + j]);
            }
            j = j + 1;
        }
        proof {
            assert(self.map@.subrange(a as int, a + n) =~= self.map@.subrange(b as int, b + n));
        }
        true
    }

    /// Whether the chain repeats.
    pub fn has_repeating_pattern(&self) -> (r: bool)
        ensures
            r == has_repeat(self.map@),
    {
        let len = self.map.len();
        if len == 1 {
            return false;
        }
        if len == 2 {
            return self.map[0] == self.map[1];
        }
        let ghost m = self.map@;
        let mut n: usize = 2;
        while n <= len / 2
            invariant
                len == m.len(),
                m == self.map@,
                len != 1 && len != 2,
                2 <= n,
                forall|n2: int, a: int, b: int|
                    2 <= n2 < n && n2 <= len / 2 && 0 <= a < len - n2 && a < b <= len - n2
                        ==> !#[trigger] windows_equal(m, a, b, n2),
            decreases len - n,
        {
            let mut a: usize = 0;
            while a < len - n
                invariant
                    len == m.len(),
                    m == self.map@,
                    2 <= n <= len / 2,
                    a <= len - n,
                    forall|n2: int, a2: int, b: int|
                        2 <= n2 < n && n2 <= len / 2 && 0 <= a2 < len - n2 && a2 < b <= len - n2
                            ==> !#[trigger] windows_equal(m, a2, b, n2),
                    forall|a2: int, b: int|
                        0 <= a2 < a && a2 < b <= len - n ==> !#[trigger] windows_equal(
                            m,
                            a2,
                            b,
                            n as int,
                        ),
                decreases len - n - a,
            {
                let mut b: usize = a + 1;
                while b <= len - n
                    invariant
                        len == m.len(),
                        m == self.map@,
                        2 <= n <= len / 2,
                        a < len - n,
                        a + 1 <= b <= len - n + 1,
                        forall|n2: int, a2: int, b2: int|
                            2 <= n2 < n && n2 <= len / 2 && 0 <= a2 < len - n2 && a2 < b2 <= len
                                - n2 ==> !#[trigger] windows_equal(m, a2, b2, n2),
                        forall|a2: int, b2: int|
                            0 <= a2 < a && a2 < b2 <= len - n ==> !#[trigger] windows_equal(
                                m,
                                a2,
                                b2,
                                n as int,
                            ),
                        forall|b2: int|
                            a < b2 < b ==> !#[trigger] windows_equal(m, a as int, b2, n as int),
                    decreases len - n + 1 - b,
                {
                    if self.windows_match(a, b, n) {
                        proof {
                            assert(windows_equal(m, a as int, b as int, n as int));
                        }
                        return true;
                    }
                    b = b + 1;
                }
                a = a + 1;
            }
            n = n + 1;
        }
        proof {
            assert forall|n2: int, a: int, b: int|
                2 <= n2 <= m.len() / 2 && 0 <= a < m.len() - n2 && a < b <= m.len() - n2 implies !#[trigger] windows_equal(
                m,
                a,
                b,
                n2,
            ) by {}
        }
        false
    }
}

/// A register together with the chain of values it leads to.
#[derive(Debug, Clone)]
pub struct TrackedRegister {
    pub register: Option<Register>,
    pub resolve: ResolveSymbol,
}

impl TrackedRegister {
    pub fn new(register: Option<Register>, resolve: ResolveSymbol) -> (r: TrackedRegister)
        ensures
            r.register == register,
            r.resolve == resolve,
    {
        TrackedRegister { register, resolve }
    }
}

} // verus!
