//! The register allocator: abstract stack slots to physical registers, from
//! a pool of temporaries and a pool of callee-saved registers.

use crate::register::{
    kind_of, lemma_register_by_index, lemma_register_exists, register_at, RegKind, Register,
};
use std::collections::HashMap;
use vstd::prelude::*;
use vstd::set_lib::{lemma_int_range, lemma_len_subset, set_int_range};
use vstd::std_specs::iter::IteratorSpec;

verus! {

/// The signal that no register is left for a slot.
#[derive(Debug, Clone, Copy, PartialEq, Eq, Structural)]
pub struct SpillError {
    pub stack_pos: usize,
}

/// Slots to registers, the two pools of free registers, and the saved
/// registers that are in use.
#[derive(Debug)]
pub struct RegisterAllocator {
    pub allocated: HashMap<usize, Register>,
    pub available_temp: Vec<Register>,
    pub available_saved: Vec<Register>,
    pub callee_saved: Vec<Register>,
}

/// What an allocator holds. The last register of a pool is the next to be
/// handed out.
pub struct AllocatorView {
    pub allocated: Map<usize, Register>,
    pub temp: Seq<Register>,
    pub saved: Seq<Register>,
    pub callee_saved: Seq<Register>,
}

/// Whether the register belongs to the pool of saved registers, s2 to s11.
pub open spec fn in_saved_pool(r: Register) -> bool {
    18 <= r.index() <= 27
}

/// Whether the register belongs to the pool of temporaries, t0 to t6.
pub open spec fn in_temp_pool(r: Register) -> bool {
    5 <= r.index() <= 7 || 28 <= r.index() <= 31
}

/// The condition that a register is not `reg`.
pub open spec fn other_than(reg: Register) -> spec_fn(Register) -> bool {
    |r: Register| r != reg
}

impl AllocatorView {
    /// No register is held twice: each pool holds registers of its own class
    /// once, no register of a pool is mapped to a slot, and no two slots
    /// share a register.
    pub open spec fn wf(self) -> bool {
        &&& self.allocated.dom().finite()
        &&& self.temp.no_duplicates()
        &&& self.saved.no_duplicates()
        &&& forall|i: int| 0 <= i < self.temp.len() ==> in_temp_pool(#[trigger] self.temp[i])
        &&& forall|i: int| 0 <= i < self.saved.len() ==> in_saved_pool(#[trigger] self.saved[i])
        &&& forall|i: int|
            0 <= i < self.temp.len() ==> !self.allocated.contains_value(#[trigger] self.temp[i])
        &&& forall|i: int|
            0 <= i < self.saved.len() ==> !self.allocated.contains_value(#[trigger] self.saved[i])
        &&& forall|k: usize| #[trigger]
            self.allocated.contains_key(k) ==> in_temp_pool(self.allocated[k]) || in_saved_pool(
                self.allocated[k],
            )
        &&& self.allocated.is_injective()
    }

    /// The number of registers that the allocator holds, free or mapped.
    pub open spec fn total(self) -> nat {
        self.temp.len() + self.saved.len() + self.allocated.dom().len()
    }

    /// The number of free registers.
    pub open spec fn available(self) -> nat {
        self.temp.len() + self.saved.len()
    }

    /// The register that the next allocation hands out: the last temporary,
    /// or the last saved register where no temporary is free.
    pub open spec fn next(self) -> Option<Register> {
        if self.temp.len() > 0 {
            Some(self.temp.last())
        } else if self.saved.len() > 0 {
            Some(self.saved.last())
        } else {
            None
        }
    }

    /// The allocator after an allocation for `slot`. A saved register that
    /// is handed out is recorded as in use. Where `slot` was mapped before,
    /// the new register takes the old one's place. With no register free
    /// nothing changes.
    pub open spec fn allocate(self, slot: usize) -> AllocatorView {
        if self.temp.len() > 0 {
            AllocatorView {
                allocated: self.allocated.insert(slot, self.temp.last()),
                temp: self.temp.drop_last(),
                ..self
            }
        } else if self.saved.len() > 0 {
            AllocatorView {
                allocated: self.allocated.insert(slot, self.saved.last()),
                saved: self.saved.drop_last(),
                callee_saved: self.callee_saved.push(self.saved.last()),
                ..self
            }
        } else {
            self
        }
    }

    /// The register that a request for `slot` returns: the one it is mapped
    /// to, else the next to be handed out.
    pub open spec fn register_for(self, slot: usize) -> Option<Register> {
        if self.allocated.contains_key(slot) {
            Some(self.allocated[slot])
        } else {
            self.next()
        }
    }

    /// The allocator after a request for the register of `slot`.
    pub open spec fn get_register(self, slot: usize) -> AllocatorView {
        if self.allocated.contains_key(slot) {
            self
        } else {
            self.allocate(slot)
        }
    }

    /// The allocator after `slot` was freed: its register is back on top of
    /// its pool, and a saved one is no longer recorded as in use.
    pub open spec fn free(self, slot: usize) -> AllocatorView {
        if self.allocated.contains_key(slot) {
            let reg = self.allocated[slot];
            match kind_of(reg.index()) {
                RegKind::Temporary => AllocatorView {
                    allocated: self.allocated.remove(slot),
                    temp: self.temp.push(reg),
                    ..self
                },
                RegKind::Saved => AllocatorView {
                    allocated: self.allocated.remove(slot),
                    saved: self.saved.push(reg),
                    callee_saved: self.callee_saved.filter(other_than(reg)),
                    ..self
                },
                _ => AllocatorView { allocated: self.allocated.remove(slot), ..self },
            }
        } else {
            self
        }
    }

    /// The allocator after `reg` was reserved: it is taken out of its pool,
    /// and a saved one is recorded as in use.
    pub open spec fn reserve(self, reg: Register) -> AllocatorView {
        match kind_of(reg.index()) {
            RegKind::Temporary => AllocatorView {
                temp: self.temp.filter(other_than(reg)),
                ..self
            },
            RegKind::Saved => AllocatorView {
                saved: self.saved.filter(other_than(reg)),
                callee_saved: self.callee_saved.push(reg),
                ..self
            },
            _ => self,
        }
    }
}

/// The allocator before any request: every temporary and every saved
/// register of the pools is free, t6 and s11 on top.
pub open spec fn initial_view() -> AllocatorView {
    AllocatorView {
        allocated: Map::empty(),
        temp: Seq::new(7, |i: int| register_at(if i < 3 { i + 5 } else { i + 25 })),
        saved: Seq::new(10, |i: int| register_at(i + 18)),
        callee_saved: Seq::empty(),
    }
}

impl View for RegisterAllocator {
    type V = AllocatorView;

    open spec fn view(&self) -> AllocatorView {
        AllocatorView {
            allocated: self.allocated@,
            temp: self.available_temp@,
            saved: self.available_saved@,
            callee_saved: self.callee_saved@,
        }
    }
}

/// A sequence of distinct numbers from 0 up to `n` has at most `n` members.
proof fn lemma_distinct_below(s: Seq<int>, n: int)
    requires
        0 <= n,
        s.no_duplicates(),
        forall|i: int| 0 <= i < s.len() ==> 0 <= #[trigger] s[i] < n,
    ensures
        s.len() <= n,
{
    s.unique_seq_to_set();
    lemma_int_range(0, n);
    assert(s.to_set().subset_of(set_int_range(0, n)));
    lemma_len_subset(s.to_set(), set_int_range(0, n));
}

/// A well-formed allocator has at most seven temporaries and ten saved
/// registers free.
pub proof fn lemma_pools_bounded(v: AllocatorView)
    requires
        v.wf(),
    ensures
        v.temp.len() <= 7,
        v.saved.len() <= 10,
{
    let t = Seq::new(
        v.temp.len(),
        |i: int|
            if v.temp[i].index() <= 7 {
                v.temp[i].index() - 5
            } else {
                v.temp[i].index() - 25
            },
    );
    assert forall|i: int, j: int| 0 <= i < t.len() && 0 <= j < t.len() && i != j implies t[i]
        != t[j] by {
        assert(in_temp_pool(v.temp[i]) && in_temp_pool(v.temp[j]));
        if t[i] == t[j] {
            lemma_register_by_index(v.temp[i], v.temp[j]);
        }
    }
    assert forall|i: int| 0 <= i < t.len() implies 0 <= #[trigger] t[i] < 7 by {
        assert(in_temp_pool(v.temp[i]));
    }
    lemma_distinct_below(t, 7);
    let s = Seq::new(v.saved.len(), |i: int| v.saved[i].index() - 18);
    assert forall|i: int, j: int| 0 <= i < s.len() && 0 <= j < s.len() && i != j implies s[i]
        != s[j] by {
        if s[i] == s[j] {
            lemma_register_by_index(v.saved[i], v.saved[j]);
        }
    }
    assert forall|i: int| 0 <= i < s.len() implies 0 <= #[trigger] s[i] < 10 by {
        assert(in_saved_pool(v.saved[i]));
    }
    lemma_distinct_below(s, 10);
}

/// What is left of a sequence without its occurrences of `reg`: its other
/// members, in their order.
pub proof fn lemma_without(s: Seq<Register>, reg: Register)
    ensures
        s.filter(other_than(reg)).len() <= s.len(),
        forall|i: int|
            0 <= i < s.filter(other_than(reg)).len() ==> s.contains(
                #[trigger] s.filter(other_than(reg))[i],
            ) && s.filter(other_than(reg))[i] != reg,
        forall|i: int|
            0 <= i < s.len() && s[i] != reg ==> s.filter(other_than(reg)).contains(#[trigger] s[i]),
        s.no_duplicates() ==> s.filter(other_than(reg)).no_duplicates(),
        !s.contains(reg) ==> s.filter(other_than(reg)) == s,
    decreases s.len(),
{
    reveal(Seq::filter);
    let f = s.filter(other_than(reg));
    if s.len() > 0 {
        let rest = s.drop_last();
        let fr = rest.filter(other_than(reg));
        lemma_without(rest, reg);
        assert forall|i: int| 0 <= i < f.len() implies s.contains(#[trigger] f[i]) && f[i]
            != reg by {
            if i < fr.len() {
                let j = choose|j: int| 0 <= j < rest.len() && rest[j] == fr[i];
                assert(s[j] == fr[i]);
            } else {
                assert(s[s.len() - 1] == f[i]);
            }
        }
        assert forall|i: int| 0 <= i < s.len() && s[i] != reg implies f.contains(
            #[trigger] s[i],
        ) by {
            if i < rest.len() {
                assert(rest[i] == s[i]);
                let j = choose|j: int| 0 <= j < fr.len() && fr[j] == rest[i];
                assert(f[j] == s[i]);
            } else {
                assert(f[f.len() - 1] == s[i]);
            }
        }
        if s.no_duplicates() {
            assert forall|i: int, j: int| 0 <= i < f.len() && 0 <= j < f.len() && i != j implies f[i]
                != f[j] by {
                if i < fr.len() && j < fr.len() {
                } else if i < fr.len() {
                    let k = choose|k: int| 0 <= k < rest.len() && rest[k] == fr[i];
                    assert(s[k] == fr[i]);
                } else {
                    let k = choose|k: int| 0 <= k < rest.len() && rest[k] == fr[j];
                    assert(s[k] == fr[j]);
                }
            }
        }
        if !s.contains(reg) {
            assert(!rest.contains(reg)) by {
                if rest.contains(reg) {
                    let k = choose|k: int| 0 <= k < rest.len() && rest[k] == reg;
                    assert(s[k] == reg);
                }
            }
            assert(s[s.len() - 1] != reg);
            assert(f =~= s);
        }
    } else {
        assert(f =~= s);
    }
}

/// What a sequence holds after one more member was put on it.
proof fn lemma_push_contains(before: Seq<Register>, after: Seq<Register>, reg: Register)
    requires
        after == before || after == before.push(reg),
    ensures
        after == before ==> (forall|r: Register| after.contains(r) <==> before.contains(r)),
        after == before.push(reg) ==> (forall|r: Register|
            after.contains(r) <==> before.contains(r) || r == reg),
        after == before.push(reg) && before.no_duplicates() && !before.contains(reg)
            ==> after.no_duplicates(),
{
    if after == before.push(reg) {
        assert forall|r: Register| after.contains(r) <==> before.contains(r) || r == reg by {
            if after.contains(r) {
                let j = choose|j: int| 0 <= j < after.len() && after[j] == r;
                if j < before.len() {
                    assert(before[j] == r);
                }
            }
            if before.contains(r) {
                let j = choose|j: int| 0 <= j < before.len() && before[j] == r;
                assert(after[j] == r);
            }
            if r == reg {
                assert(after[before.len() as int] == r);
            }
        }
    }
}

/// What the concatenation of two sequences holds.
proof fn lemma_concat_contains(a: Seq<Register>, b: Seq<Register>, r: Register)
    ensures
        (a + b).contains(r) <==> a.contains(r) || b.contains(r),
{
    if (a + b).contains(r) {
        let j = choose|j: int| 0 <= j < (a + b).len() && (a + b)[j] == r;
        if j < a.len() {
            assert(a[j] == r);
        } else {
            assert(b[j - a.len()] == r);
        }
    }
    if a.contains(r) {
        let j = choose|j: int| 0 <= j < a.len() && a[j] == r;
        assert((a + b)[j] == r);
    }
    if b.contains(r) {
        let j = choose|j: int| 0 <= j < b.len() && b[j] == r;
        assert((a + b)[a.len() + j] == r);
    }
}

/// Two sequences without repeats that share no member join to one without
/// repeats.
proof fn lemma_concat_distinct(a: Seq<Register>, b: Seq<Register>)
    requires
        a.no_duplicates(),
        b.no_duplicates(),
        forall|i: int, j: int| 0 <= i < a.len() && 0 <= j < b.len() ==> a[i] != b[j],
    ensures
        (a + b).no_duplicates(),
{
}

/// Takes every occurrence of `reg` out of `v`.
fn remove_register(v: &mut Vec<Register>, reg: Register)
    ensures
        final(v)@ == old(v)@.filter(other_than(reg)),
{
    let mut kept: Vec<Register> = Vec::new();
    let mut i: usize = 0;
    proof {
        reveal(Seq::filter);
        assert(old(v)@.take(0).filter(other_than(reg)) =~= Seq::<Register>::empty());
    }
    while i < v.len()
        invariant
            i <= v.len(),
            v@ == old(v)@,
            kept@ == v@.take(i as int).filter(other_than(reg)),
        decreases v.len() - i,
    {
        let r = v[i];
        proof {
            reveal(Seq::filter);
            assert(v@.take(i + 1).drop_last() =~= v@.take(i as int));
            assert(v@.take(i + 1).last() == r);
        }
        if r != reg {
            kept.push(r);
        }
        i += 1;
    }
    assert(v@.take(v.len() as int) =~= v@);
    *v = kept;
}

impl RegisterAllocator {
    /// An allocator with every register of the two pools free.
    pub fn new() -> (r: Self)
        ensures
            r@ == initial_view(),
            r@.wf(),
            r@.total() == 17,
    {
        broadcast use vstd::std_specs::hash::group_hash_axioms;

        let mut available_temp: Vec<Register> = Vec::with_capacity(7);
        let mut available_saved: Vec<Register> = Vec::with_capacity(10);
        let mut i: u8 = 5;
        while i <= 7
            invariant
                5 <= i <= 8,
                available_temp@.len() == i - 5,
                forall|k: int| 0 <= k < i - 5 ==> (#[trigger] available_temp@[k]).index() == k + 5,
            decreases 8 - i,
        {
            available_temp.push(Register::from_raw(i));
            i += 1;
        }
        let mut i: u8 = 28;
        while i <= 31
            invariant
                28 <= i <= 32,
                available_temp@.len() == i - 25,
                forall|k: int|
                    0 <= k < i - 25 ==> (#[trigger] available_temp@[k]).index() == (if k < 3 {
                        k + 5
                    } else {
                        k + 25
                    }),
            decreases 32 - i,
        {
            available_temp.push(Register::from_raw(i));
            i += 1;
        }
        let mut i: u8 = 18;
        while i <= 27
            invariant
                18 <= i <= 28,
                available_saved@.len() == i - 18,
                forall|k: int|
                    0 <= k < i - 18 ==> (#[trigger] available_saved@[k]).index() == k + 18,
            decreases 28 - i,
        {
            available_saved.push(Register::from_raw(i));
            i += 1;
        }
        let r = RegisterAllocator {
            allocated: HashMap::new(),
            available_temp,
            available_saved,
            callee_saved: Vec::new(),
        };
        proof {
            let init = initial_view();
            assert forall|k: int| 0 <= k < 7 implies r@.temp[k] == init.temp[k] by {
                lemma_register_by_index(r@.temp[k], init.temp[k]);
            }
            assert forall|k: int| 0 <= k < 10 implies r@.saved[k] == init.saved[k] by {
                lemma_register_by_index(r@.saved[k], init.saved[k]);
            }
            assert(r@.temp =~= init.temp);
            assert(r@.saved =~= init.saved);
            assert(r@.allocated =~= init.allocated);
            assert(r@.callee_saved =~= init.callee_saved);
            assert(r@.allocated.dom() =~= Set::<usize>::empty());
        }
        r
    }

    /// The register of `slot`: the one it is mapped to, else one that is
    /// allocated for it now. Refused where none is free.
    pub fn get_register(&mut self, stack_pos: usize) -> (r: Result<Register, SpillError>)
        requires
            old(self)@.wf(),
        ensures
            final(self)@.wf(),
            final(self)@ == old(self)@.get_register(stack_pos),
            match old(self)@.register_for(stack_pos) {
                Some(reg) => r == Ok::<Register, SpillError>(reg),
                None => r == Err::<Register, SpillError>(SpillError { stack_pos }),
            },
    {
        broadcast use vstd::std_specs::hash::group_hash_axioms;

        let found = match self.allocated.get(&stack_pos) {
            Some(reg) => Some(*reg),
            None => None,
        };
        match found {
            Some(reg) => Ok(reg),
            None => self.allocate(stack_pos),
        }
    }

    /// Maps `slot` to a free register: a temporary where one is free, else a
    /// saved register, which is then recorded as in use. Refused, with
    /// nothing changed, where none is free.
    pub fn allocate(&mut self, stack_pos: usize) -> (r: Result<Register, SpillError>)
        requires
            old(self)@.wf(),
        ensures
            final(self)@.wf(),
            final(self)@ == old(self)@.allocate(stack_pos),
            match old(self)@.next() {
                Some(reg) => r == Ok::<Register, SpillError>(reg),
                None => r == Err::<Register, SpillError>(SpillError { stack_pos }),
            },
    {
        broadcast use vstd::std_specs::hash::group_hash_axioms;

        let reg = match self.available_temp.pop() {
            Some(reg) => reg,
            None => match self.available_saved.pop() {
                Some(reg) => {
                    self.callee_saved.push(reg);
                    reg
                },
                None => {
                    assert(self@ =~= old(self)@);
                    return Err(SpillError { stack_pos });
                },
            },
        };
        self.allocated.insert(stack_pos, reg);
        proof {
            let before = old(self)@;
            let after = self@;
            assert(after.allocated == before.allocated.insert(stack_pos, reg));
            assert(!before.allocated.contains_value(reg));
            assert forall|i: int| 0 <= i < after.temp.len() implies !after.allocated.contains_value(
                #[trigger] after.temp[i],
            ) by {
                assert(after.temp[i] == before.temp[i]);
                assert(after.temp[i] != reg);
            }
            assert forall|i: int|
                0 <= i < after.saved.len() implies !after.allocated.contains_value(
                #[trigger] after.saved[i],
            ) by {
                assert(after.saved[i] == before.saved[i]);
                assert(before.temp.len() > 0 ==> in_temp_pool(before.temp.last()));
                assert(after.saved[i] != reg);
            }
        }
        Ok(reg)
    }

    /// Unmaps `slot` and returns its register to its pool; a saved register
    /// is no longer recorded as in use. A slot that is not mapped changes
    /// nothing.
    pub fn free(&mut self, stack_pos: usize)
        requires
            old(self)@.wf(),
        ensures
            final(self)@.wf(),
            final(self)@ == old(self)@.free(stack_pos),
    {
        broadcast use vstd::std_specs::hash::group_hash_axioms;

        if let Some(reg) = self.allocated.remove(&stack_pos) {
            match reg.kind() {
                RegKind::Temporary => {
                    self.available_temp.push(reg);
                },
                RegKind::Saved => {
                    remove_register(&mut self.callee_saved, reg);
                    self.available_saved.push(reg);
                },
                _ => {},
            }
            proof {
                let before = old(self)@;
                let after = self@;
                assert(before.allocated.contains_key(stack_pos) && before.allocated[stack_pos]
                    == reg);
                assert(after.allocated == before.allocated.remove(stack_pos));
                assert(before.allocated.contains_value(reg));
                assert(!after.allocated.contains_value(reg)) by {
                    if after.allocated.contains_value(reg) {
                        let k = choose|k: usize|
                            after.allocated.contains_key(k) && after.allocated[k] == reg;
                        assert(before.allocated.contains_key(k));
                    }
                }
                assert forall|r: Register|
                    after.allocated.contains_value(r) implies before.allocated.contains_value(
                    r,
                ) by {
                    let k = choose|k: usize|
                        after.allocated.contains_key(k) && after.allocated[k] == r;
                    assert(before.allocated.contains_key(k) && before.allocated[k] == r);
                }
            }
        } else {
            assert(self@.allocated =~= old(self)@.allocated);
        }
    }

    /// The saved registers that are in use, in the order in which they were
    /// taken.
    pub fn get_callee_saved(&self) -> (r: &[Register])
        ensures
            r@ == self@.callee_saved,
    {
        self.callee_saved.as_slice()
    }

    /// Returns every mapped register to its pool, on top of what the pool
    /// holds, unmaps every slot, and records no saved register as in use. The
    /// order in which the registers return is not fixed.
    pub fn clear_allocations(&mut self)
        requires
            old(self)@.wf(),
        ensures
            final(self)@.wf(),
            final(self)@.allocated == Map::<usize, Register>::empty(),
            final(self)@.callee_saved == Seq::<Register>::empty(),
            final(self)@.temp.len() >= old(self)@.temp.len(),
            final(self)@.saved.len() >= old(self)@.saved.len(),
            final(self)@.temp.take(old(self)@.temp.len() as int) == old(self)@.temp,
            final(self)@.saved.take(old(self)@.saved.len() as int) == old(self)@.saved,
            forall|r: Register|
                final(self)@.temp.contains(r) <==> old(self)@.temp.contains(r) || (old(
                    self,
                )@.allocated.contains_value(r) && in_temp_pool(r)),
            forall|r: Register|
                final(self)@.saved.contains(r) <==> old(self)@.saved.contains(r) || (old(
                    self,
                )@.allocated.contains_value(r) && in_saved_pool(r)),
            final(self)@.available() == old(self)@.total(),
    {
        broadcast use vstd::std_specs::hash::group_hash_axioms;

        let ghost before = self@;
        let ghost all = self.allocated.values().remaining().unref();
        let ghost mut seen: Seq<Register> = Seq::empty();
        let ghost mut extra_temp: Seq<Register> = Seq::empty();
        let ghost mut extra_saved: Seq<Register> = Seq::empty();
        proof {
            before.allocated.lemma_injective_values_len();
            assert(all.len() == self.allocated.values().remaining().len());
            all.lemma_no_dup_set_cardinality();
            assert(all.take(0) =~= seen);
        }
        for reg in it: self.allocated.values()
            invariant
                before == old(self)@,
                before.wf(),
                self.allocated@ == before.allocated,
                it.seq().unref() == all,
                all.len() == it.seq().len(),
                all.to_set() == before.allocated.values(),
                all.no_duplicates(),
                all.len() == before.allocated.dom().len(),
                seen.len() == it.index(),
                seen == all.take(seen.len() as int),
                self.available_temp@ == before.temp + extra_temp,
                self.available_saved@ == before.saved + extra_saved,
                extra_temp.len() + extra_saved.len() == seen.len(),
                forall|r: Register|
                    #![trigger extra_temp.contains(r)]
                    #![trigger seen.contains(r)]
                    extra_temp.contains(r) <==> in_temp_pool(r) && seen.contains(r),
                forall|r: Register|
                    #![trigger extra_saved.contains(r)]
                    #![trigger seen.contains(r)]
                    extra_saved.contains(r) <==> in_saved_pool(r) && seen.contains(r),
                extra_temp.no_duplicates(),
                extra_saved.no_duplicates(),
        {
            let ghost i = it.index();
            let ghost old_seen = seen;
            let ghost old_temp = extra_temp;
            let ghost old_saved = extra_saved;
            proof {
                assert(all[i] == *reg);
                assert(all.to_set().contains(all[i]));
                assert(before.allocated.contains_value(*reg));
                let k = choose|k: usize|
                    before.allocated.contains_key(k) && before.allocated[k] == *reg;
                assert(in_temp_pool(*reg) || in_saved_pool(*reg));
                assert(!seen.contains(*reg)) by {
                    if seen.contains(*reg) {
                        let j = choose|j: int| 0 <= j < i && seen[j] == *reg;
                        assert(all[j] == all[i]);
                    }
                }
                seen = seen.push(*reg);
                assert(seen =~= all.take(i + 1));
            }
            match reg.kind() {
                RegKind::Temporary => {
                    self.available_temp.push(*reg);
                    proof {
                        extra_temp = extra_temp.push(*reg);
                        assert(self.available_temp@ =~= before.temp + extra_temp);
                    }
                },
                RegKind::Saved => {
                    self.available_saved.push(*reg);
                    proof {
                        extra_saved = extra_saved.push(*reg);
                        assert(self.available_saved@ =~= before.saved + extra_saved);
                    }
                },
                _ => {},
            }
            proof {
                lemma_push_contains(old_temp, extra_temp, *reg);
                lemma_push_contains(old_saved, extra_saved, *reg);
                lemma_push_contains(old_seen, seen, *reg);
            }
        }
        self.allocated.clear();
        self.callee_saved.clear();
        proof {
            let after = self@;
            assert(all.take(all.len() as int) =~= all);
            assert(seen == all);
            assert(after.allocated.dom() =~= Set::<usize>::empty());
            assert forall|r: Register|
                after.temp.contains(r) <==> before.temp.contains(r) || (
                before.allocated.contains_value(r) && in_temp_pool(r)) by {
                lemma_concat_contains(before.temp, extra_temp, r);
                assert(all.to_set().contains(r) <==> all.contains(r));
            }
            assert forall|r: Register|
                after.saved.contains(r) <==> before.saved.contains(r) || (
                before.allocated.contains_value(r) && in_saved_pool(r)) by {
                lemma_concat_contains(before.saved, extra_saved, r);
                assert(all.to_set().contains(r) <==> all.contains(r));
            }
            assert forall|i: int, j: int|
                0 <= i < before.temp.len() && 0 <= j < extra_temp.len() implies before.temp[i]
                != extra_temp[j] by {
                assert(extra_temp.contains(extra_temp[j]));
                assert(all.to_set().contains(extra_temp[j]));
            }
            assert forall|i: int, j: int|
                0 <= i < before.saved.len() && 0 <= j < extra_saved.len() implies before.saved[i]
                != extra_saved[j] by {
                assert(extra_saved.contains(extra_saved[j]));
                assert(all.to_set().contains(extra_saved[j]));
            }
            lemma_concat_distinct(before.temp, extra_temp);
            lemma_concat_distinct(before.saved, extra_saved);
            assert(after.temp.take(before.temp.len() as int) =~= before.temp);
            assert(after.saved.take(before.saved.len() as int) =~= before.saved);
            assert forall|j: int| 0 <= j < after.temp.len() implies in_temp_pool(
                #[trigger] after.temp[j],
            ) by {
                if j >= before.temp.len() {
                    assert(extra_temp.contains(extra_temp[j - before.temp.len()]));
                }
            }
            assert forall|j: int| 0 <= j < after.saved.len() implies in_saved_pool(
                #[trigger] after.saved[j],
            ) by {
                if j >= before.saved.len() {
                    assert(extra_saved.contains(extra_saved[j - before.saved.len()]));
                }
            }
        }
    }

    /// Takes `reg` out of its pool for a purpose of the caller's; a saved
    /// register is recorded as in use.
    pub fn reserve_register(&mut self, reg: Register)
        requires
            old(self)@.wf(),
        ensures
            final(self)@.wf(),
            final(self)@ == old(self)@.reserve(reg),
    {
        proof {
            lemma_without(self@.temp, reg);
            lemma_without(self@.saved, reg);
        }
        match reg.kind() {
            RegKind::Temporary => {
                remove_register(&mut self.available_temp, reg);
            },
            RegKind::Saved => {
                remove_register(&mut self.available_saved, reg);
                self.callee_saved.push(reg);
            },
            _ => {},
        }
    }

    /// Whether `slot` is mapped to a register.
    pub fn has_allocation(&self, stack_pos: usize) -> (r: bool)
        ensures
            r == self@.allocated.contains_key(stack_pos),
    {
        broadcast use vstd::std_specs::hash::group_hash_axioms;

        self.allocated.contains_key(&stack_pos)
    }

    /// The number of free registers.
    pub fn available_count(&self) -> (r: usize)
        requires
            self@.wf(),
        ensures
            r == self@.available(),
    {
        proof {
            lemma_pools_bounded(self@);
        }
        self.available_temp.len() + self.available_saved.len()
    }
}

/// An allocation keeps the allocator well-formed. For a slot that is not
/// mapped, it moves one register from the pools to the map, so the number
/// of registers held stays the same.
pub proof fn law_allocate_conserves(v: AllocatorView, slot: usize)
    requires
        v.wf(),
    ensures
        v.allocate(slot).wf(),
        v.next() is Some ==> v.allocate(slot).available() == v.available() - 1,
        v.next() is Some ==> v.allocate(slot).allocated.dom() == v.allocated.dom().insert(slot),
        v.next() is Some && !v.allocated.contains_key(slot) ==> v.allocate(slot).total()
            == v.total(),
{
    let w = v.allocate(slot);
    if v.next() is Some {
        let reg = v.next()->Some_0;
        assert(!v.allocated.contains_value(reg)) by {
            if v.temp.len() > 0 {
                assert(reg == v.temp[v.temp.len() - 1]);
            } else {
                assert(reg == v.saved[v.saved.len() - 1]);
            }
        }
        assert(in_temp_pool(reg) || in_saved_pool(reg)) by {
            if v.temp.len() > 0 {
                assert(in_temp_pool(v.temp[v.temp.len() - 1]));
            } else {
                assert(in_saved_pool(v.saved[v.saved.len() - 1]));
            }
        }
        assert(w.allocated == v.allocated.insert(slot, reg));
        assert(w.allocated.dom() =~= v.allocated.dom().insert(slot));
        assert forall|r: Register| w.allocated.contains_value(r) implies r == reg
            || v.allocated.contains_value(r) by {
            let k = choose|k: usize| w.allocated.contains_key(k) && w.allocated[k] == r;
            if k != slot {
                assert(v.allocated.contains_key(k) && v.allocated[k] == r);
            }
        }
        assert forall|i: int| 0 <= i < w.temp.len() implies !w.allocated.contains_value(
            #[trigger] w.temp[i],
        ) && in_temp_pool(w.temp[i]) by {
            assert(w.temp[i] == v.temp[i]);
            assert(in_temp_pool(v.temp[i]));
            assert(!v.allocated.contains_value(v.temp[i]));
        }
        assert forall|i: int| 0 <= i < w.saved.len() implies !w.allocated.contains_value(
            #[trigger] w.saved[i],
        ) && in_saved_pool(w.saved[i]) by {
            assert(w.saved[i] == v.saved[i]);
            assert(in_saved_pool(v.saved[i]));
            assert(!v.allocated.contains_value(v.saved[i]));
        }
        assert forall|k: usize| #[trigger] w.allocated.contains_key(k) implies in_temp_pool(
            w.allocated[k],
        ) || in_saved_pool(w.allocated[k]) by {
            if k != slot {
                assert(v.allocated.contains_key(k));
            }
        }
        assert(w.allocated.is_injective()) by {
            assert forall|x: usize, y: usize|
                x != y && w.allocated.dom().contains(x) && w.allocated.dom().contains(
                    y,
                ) implies #[trigger] w.allocated[x] != #[trigger] w.allocated[y] by {
                if x == slot {
                    assert(v.allocated.contains_key(y));
                    assert(v.allocated.contains_value(v.allocated[y]));
                } else if y == slot {
                    assert(v.allocated.contains_key(x));
                    assert(v.allocated.contains_value(v.allocated[x]));
                }
            }
        }
    }
}

/// Freeing a slot keeps the allocator well-formed, and moves the slot's
/// register from the map back to its pool, so the number of registers held
/// stays the same.
pub proof fn law_free_conserves(v: AllocatorView, slot: usize)
    requires
        v.wf(),
    ensures
        v.free(slot).wf(),
        v.free(slot).total() == v.total(),
        v.free(slot).allocated.dom() == v.allocated.dom().remove(slot),
{
    let w = v.free(slot);
    if v.allocated.contains_key(slot) {
        let reg = v.allocated[slot];
        assert(v.allocated.contains_value(reg));
        assert(in_temp_pool(reg) || in_saved_pool(reg));
        assert(w.allocated == v.allocated.remove(slot));
        assert(w.allocated.dom() =~= v.allocated.dom().remove(slot));
        assert forall|r: Register| w.allocated.contains_value(r) implies r != reg
            && v.allocated.contains_value(r) by {
            let k = choose|k: usize| w.allocated.contains_key(k) && w.allocated[k] == r;
            assert(v.allocated.contains_key(k) && v.allocated[k] == r);
        }
        assert forall|i: int| 0 <= i < w.temp.len() implies !w.allocated.contains_value(
            #[trigger] w.temp[i],
        ) && in_temp_pool(w.temp[i]) by {
            if i < v.temp.len() {
                assert(w.temp[i] == v.temp[i]);
                assert(in_temp_pool(v.temp[i]));
                assert(!v.allocated.contains_value(v.temp[i]));
            }
        }
        assert forall|i: int| 0 <= i < w.saved.len() implies !w.allocated.contains_value(
            #[trigger] w.saved[i],
        ) && in_saved_pool(w.saved[i]) by {
            if i < v.saved.len() {
                assert(w.saved[i] == v.saved[i]);
                assert(in_saved_pool(v.saved[i]));
                assert(!v.allocated.contains_value(v.saved[i]));
            }
        }
        assert(w.temp.no_duplicates()) by {
            if in_temp_pool(reg) {
                lemma_push_contains(v.temp, w.temp, reg);
                assert(!v.temp.contains(reg)) by {
                    if v.temp.contains(reg) {
                        let j = choose|j: int| 0 <= j < v.temp.len() && v.temp[j] == reg;
                        assert(!v.allocated.contains_value(v.temp[j]));
                    }
                }
            }
        }
        assert(w.saved.no_duplicates()) by {
            if !in_temp_pool(reg) {
                lemma_push_contains(v.saved, w.saved, reg);
                assert(!v.saved.contains(reg)) by {
                    if v.saved.contains(reg) {
                        let j = choose|j: int| 0 <= j < v.saved.len() && v.saved[j] == reg;
                        assert(!v.allocated.contains_value(v.saved[j]));
                    }
                }
            }
        }
        assert forall|k: usize| #[trigger] w.allocated.contains_key(k) implies in_temp_pool(
            w.allocated[k],
        ) || in_saved_pool(w.allocated[k]) by {
            assert(v.allocated.contains_key(k));
        }
    } else {
        assert(v.allocated.dom().remove(slot) =~= v.allocated.dom());
    }
}

/// The allocator after allocations for `slots`, in their order.
pub open spec fn allocate_all(v: AllocatorView, slots: Seq<usize>) -> AllocatorView
    decreases slots.len(),
{
    if slots.len() == 0 {
        v
    } else {
        allocate_all(v, slots.drop_last()).allocate(slots.last())
    }
}

/// The allocator after `slots` were freed, in their order.
pub open spec fn free_all(v: AllocatorView, slots: Seq<usize>) -> AllocatorView
    decreases slots.len(),
{
    if slots.len() == 0 {
        v
    } else {
        free_all(v, slots.drop_last()).free(slots.last())
    }
}

/// Allocations for distinct unmapped slots, no more than there are free
/// registers, map exactly those slots more and keep the number of registers
/// held.
pub proof fn law_allocate_all(v: AllocatorView, slots: Seq<usize>)
    requires
        v.wf(),
        slots.no_duplicates(),
        slots.len() <= v.available(),
        forall|i: int| 0 <= i < slots.len() ==> !v.allocated.contains_key(#[trigger] slots[i]),
    ensures
        allocate_all(v, slots).wf(),
        allocate_all(v, slots).total() == v.total(),
        allocate_all(v, slots).available() == v.available() - slots.len(),
        allocate_all(v, slots).allocated.dom() == v.allocated.dom().union(slots.to_set()),
    decreases slots.len(),
{
    if slots.len() == 0 {
        assert(v.allocated.dom().union(slots.to_set()) =~= v.allocated.dom());
    } else {
        let rest = slots.drop_last();
        let slot = slots.last();
        law_allocate_all(v, rest);
        let w = allocate_all(v, rest);
        assert(!w.allocated.contains_key(slot)) by {
            if rest.to_set().contains(slot) {
                let j = choose|j: int| 0 <= j < rest.len() && rest[j] == slot;
                assert(slots[j] == slots[slots.len() - 1]);
            }
            assert(!v.allocated.contains_key(slots[slots.len() - 1]));
        }
        law_allocate_conserves(w, slot);
        assert(rest.to_set().insert(slot) =~= slots.to_set()) by {
            assert forall|x: usize| rest.to_set().insert(slot).contains(x) <==> slots.to_set().contains(
                x,
            ) by {
                if rest.contains(x) {
                    let j = choose|j: int| 0 <= j < rest.len() && rest[j] == x;
                    assert(slots[j] == x);
                }
                if slots.contains(x) {
                    let j = choose|j: int| 0 <= j < slots.len() && slots[j] == x;
                    if j < rest.len() {
                        assert(rest[j] == x);
                    }
                }
                if x == slot {
                    assert(slots[slots.len() - 1] == x);
                }
            }
        }
        assert(w.allocated.dom().insert(slot) =~= v.allocated.dom().union(slots.to_set()));
    }
}

/// Freeing slots keeps the number of registers held and unmaps exactly
/// those slots.
pub proof fn law_free_all(v: AllocatorView, slots: Seq<usize>)
    requires
        v.wf(),
    ensures
        free_all(v, slots).wf(),
        free_all(v, slots).total() == v.total(),
        free_all(v, slots).allocated.dom() == v.allocated.dom().difference(slots.to_set()),
    decreases slots.len(),
{
    if slots.len() == 0 {
        assert(v.allocated.dom().difference(slots.to_set()) =~= v.allocated.dom());
    } else {
        let rest = slots.drop_last();
        let slot = slots.last();
        law_free_all(v, rest);
        let w = free_all(v, rest);
        law_free_conserves(w, slot);
        assert(w.allocated.dom().remove(slot) =~= v.allocated.dom().difference(slots.to_set()))
            by {
            assert forall|x: usize|
                w.allocated.dom().remove(slot).contains(x) <==> v.allocated.dom().difference(
                    slots.to_set(),
                ).contains(x) by {
                if rest.contains(x) {
                    let j = choose|j: int| 0 <= j < rest.len() && rest[j] == x;
                    assert(slots[j] == x);
                }
                if slots.contains(x) {
                    let j = choose|j: int| 0 <= j < slots.len() && slots[j] == x;
                    if j < rest.len() {
                        assert(rest[j] == x);
                    }
                }
                if x == slot {
                    assert(slots[slots.len() - 1] == x);
                }
            }
        }
    }
}

/// The allocator before any request is well-formed and holds 17 registers,
/// all of them free.
pub proof fn law_initial(v: AllocatorView)
    requires
        v == initial_view(),
    ensures
        v.wf(),
        v.total() == 17,
        v.available() == 17,
{
    assert(v.allocated.dom() =~= Set::<usize>::empty());
    assert forall|i: int| 0 <= i < 7 implies (#[trigger] v.temp[i]).index() == (if i < 3 {
        i + 5
    } else {
        i + 25
    }) by {
        lemma_register_exists((if i < 3 {
            i + 5
        } else {
            i + 25
        }) as u8);
    }
    assert forall|i: int| 0 <= i < 10 implies (#[trigger] v.saved[i]).index() == i + 18 by {
        lemma_register_exists((i + 18) as u8);
    }
    assert forall|i: int| 0 <= i < v.temp.len() implies !v.allocated.contains_value(
        #[trigger] v.temp[i],
    ) by {
        if v.allocated.contains_value(v.temp[i]) {
            let k = choose|k: usize| v.allocated.contains_key(k) && v.allocated[k] == v.temp[i];
        }
    }
    assert forall|i: int| 0 <= i < v.saved.len() implies !v.allocated.contains_value(
        #[trigger] v.saved[i],
    ) by {
        if v.allocated.contains_value(v.saved[i]) {
            let k = choose|k: usize| v.allocated.contains_key(k) && v.allocated[k] == v.saved[i];
        }
    }
}

/// After allocations for any number of distinct slots that the pools can
/// serve, and after freeing the same slots in any order, every register is
/// free again: the count of free registers is the initial 17, and no slot is
/// mapped.
pub proof fn law_allocate_then_free_restores(slots: Seq<usize>, frees: Seq<usize>)
    requires
        slots.no_duplicates(),
        slots.len() <= 17,
        frees.to_set() == slots.to_set(),
    ensures
        free_all(allocate_all(initial_view(), slots), frees).wf(),
        free_all(allocate_all(initial_view(), slots), frees).available() == 17,
        free_all(allocate_all(initial_view(), slots), frees).allocated.dom() == Set::<
            usize,
        >::empty(),
{
    let v = initial_view();
    law_initial(v);
    assert forall|i: int| 0 <= i < slots.len() implies !v.allocated.contains_key(
        #[trigger] slots[i],
    ) by {}
    law_allocate_all(v, slots);
    let w = allocate_all(v, slots);
    law_free_all(w, frees);
    let u = free_all(w, frees);
    assert(u.allocated.dom() =~= Set::<usize>::empty());
}

} // verus!
