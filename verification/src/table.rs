//! Semantics of the synthesized reference table and its helper functions.
//!
//! The processor synthesizes three local functions into a module: *insert*,
//! *get* and *drop*, all bound to a module-local table of references. This
//! module states their semantics over a plain model of that table, with the
//! exact algorithm the synthesized bytecode implements: *insert* reuses the
//! highest-indexed free slot and grows the table only when no slot is free;
//! *get* maps the sentinel index to the null reference; *drop* clears a slot,
//! handing back the value a configured host notification would receive.

use vstd::prelude::*;

verus! {

/// The index that denotes a null reference. It never names a table slot.
pub const NULL_INDEX: usize = usize::MAX;

/// An opaque host reference, or null. Distinct identifiers stand for distinct
/// host values; the guest never looks inside one.
#[derive(Debug, Clone, Copy, PartialEq, Eq, Structural)]
pub enum HostRef {
    /// The null reference.
    Null,
    /// A non-null host reference.
    Ref(u64),
}

impl HostRef {
    /// Whether this is the null reference.
    pub open spec fn spec_is_null(&self) -> bool {
        *self is Null
    }

    /// Whether this is the null reference.
    #[verifier::when_used_as_spec(spec_is_null)]
    pub fn is_null(&self) -> (r: bool)
        ensures
            r == self.spec_is_null(),
    {
        matches!(self, HostRef::Null)
    }
}

/// The highest index below `n` whose slot is null, or `-1` if all slots below
/// `n` are occupied.
pub open spec fn last_free_slot(s: Seq<HostRef>, n: int) -> int
    decreases n,
{
    if n <= 0 || n > s.len() {
        -1
    } else if s[n - 1] is Null {
        n - 1
    } else {
        last_free_slot(s, n - 1)
    }
}

/// The slot a non-null insertion into `s` targets: the highest free slot, or
/// `s.len()` when the table must grow.
pub open spec fn insert_index(s: Seq<HostRef>) -> int {
    if last_free_slot(s, s.len() as int) >= 0 {
        last_free_slot(s, s.len() as int)
    } else {
        s.len() as int
    }
}

/// The table contents after inserting `v` into `s`.
pub open spec fn insert_result(s: Seq<HostRef>, v: HostRef) -> Seq<HostRef> {
    if v is Null {
        s
    } else if insert_index(s) < s.len() {
        s.update(insert_index(s), v)
    } else {
        s.push(v)
    }
}

/// `last_free_slot(s, n)` is the highest null index below `n`, when any exists.
pub proof fn lemma_last_free_slot(s: Seq<HostRef>, n: int)
    requires
        0 <= n <= s.len(),
    ensures
        last_free_slot(s, n) < n,
        last_free_slot(s, n) >= 0 ==> s[last_free_slot(s, n)] is Null,
        forall|j: int| last_free_slot(s, n) < j < n ==> !(s[j] is Null),
        last_free_slot(s, n) >= -1,
    decreases n,
{
    if n > 0 {
        lemma_last_free_slot(s, n - 1);
    }
}

/// If `s[i]` is null and every later slot is occupied, then `i` is the slot
/// the next insertion targets.
pub proof fn lemma_insert_index_of_free(s: Seq<HostRef>, i: int)
    requires
        0 <= i < s.len(),
        s[i] is Null,
        forall|j: int| i < j < s.len() ==> !(s[j] is Null),
    ensures
        insert_index(s) == i,
{
    lemma_last_free_downto(s, s.len() as int, i);
}

proof fn lemma_last_free_downto(s: Seq<HostRef>, n: int, i: int)
    requires
        0 <= i < n <= s.len(),
        s[i] is Null,
        forall|j: int| i < j < n ==> !(s[j] is Null),
    ensures
        last_free_slot(s, n) == i,
    decreases n,
{
    if n - 1 > i {
        lemma_last_free_downto(s, n - 1, i);
    }
}

/// Model of the reference table: the sole owner of every live reference
/// captured from the host. Slot indices are the surrogate integers guest code
/// holds.
#[derive(Debug)]
pub struct RefTable {
    /// The table slots, each holding a reference or null.
    pub slots: Vec<HostRef>,
}

impl RefTable {
    /// Creates the table, initially of size zero.
    pub fn new() -> (t: RefTable)
        ensures
            t.slots@ =~= Seq::<HostRef>::empty(),
    {
        RefTable { slots: Vec::new() }
    }

    /// The current table size.
    pub fn size(&self) -> (n: usize)
        ensures
            n == self.slots@.len(),
    {
        self.slots.len()
    }

    /// Stores a non-null reference in the table and returns its index, or
    /// returns [`NULL_INDEX`] (the machine word `-1`) for a null reference,
    /// leaving the table unchanged. A free slot is reused when one exists —
    /// the highest-indexed one, biasing reuse toward recently freed slots —
    /// and the table grows by one only when every slot is occupied.
    pub fn insert(&mut self, value: HostRef) -> (r: usize)
        requires
            old(self).slots@.len() < usize::MAX,
        ensures
            final(self).slots@ == insert_result(old(self).slots@, value),
            value is Null ==> r == NULL_INDEX,
            !(value is Null) ==> r == insert_index(old(self).slots@),
            !(value is Null) ==> r < final(self).slots@.len() && final(self).slots@[r as int] == value,
    {
        if value.is_null() {
            return NULL_INDEX;
        }
        let ghost s = self.slots@;
        let n = self.slots.len();
        let mut i = n;
        if n > 0 {
            i = n - 1;
            loop
                invariant_except_break
                    0 <= i < n,
                    n == s.len(),
                    self.slots@ == s,
                    last_free_slot(s, n as int) == last_free_slot(s, i + 1),
                ensures
                    n == s.len(),
                    self.slots@ == s,
                    i == insert_index(s) || (i == n && insert_index(s) == n),
                decreases i,
            {
                if self.slots[i].is_null() {
                    proof {
                        lemma_last_free_slot(s, i + 1);
                        assert(last_free_slot(s, i + 1) == i as int);
                    }
                    break;
                }
                if i == 0 {
                    assert(last_free_slot(s, 0) == -1);
                    assert(last_free_slot(s, 1) == -1);
                    assert(last_free_slot(s, n as int) == -1);
                    i = n;
                    break;
                }
                i = i - 1;
            }
        } else {
            assert(insert_index(s) == 0);
        }
        proof {
            lemma_last_free_slot(s, n as int);
        }
        if i == n {
            self.slots.push(value);
        } else {
            let end = self.slots.len();
            assert(i < end);
            self.slots[i] = value;
        }
        i
    }

    /// Returns the reference stored at `index`, or null for [`NULL_INDEX`].
    pub fn get(&self, index: usize) -> (r: HostRef)
        requires
            index == NULL_INDEX || index < self.slots@.len(),
        ensures
            index == NULL_INDEX ==> r is Null,
            index != NULL_INDEX ==> r == self.slots@[index as int],
    {
        if index == NULL_INDEX {
            HostRef::Null
        } else {
            self.slots[index]
        }
    }

    /// Clears the slot at `index` and returns the reference it held: the value
    /// a configured drop notification is invoked with, exactly once, before
    /// the slot is cleared.
    pub fn drop(&mut self, index: usize) -> (dropped: HostRef)
        requires
            index < old(self).slots@.len(),
        ensures
            dropped == old(self).slots@[index as int],
            final(self).slots@ == old(self).slots@.update(index as int, HostRef::Null),
    {
        let dropped = self.slots[index];
        self.slots[index] = HostRef::Null;
        dropped
    }
}

/// Law: a slot freed by *drop* is reused by the next insertion. After
/// `i = insert(r); drop(i); j = insert(r2)` with non-null `r` and `r2`, the
/// second insertion returns the same index `i` and does not grow the table.
pub proof fn lemma_insert_reuses_slot(s: Seq<HostRef>, r: HostRef, r2: HostRef)
    requires
        !(r is Null),
        !(r2 is Null),
    ensures
        ({
            let i = insert_index(s);
            let t1 = insert_result(s, r);
            let t2 = t1.update(i, HostRef::Null);
            &&& insert_index(t2) == i
            &&& insert_result(t2, r2) == t2.update(i, r2)
            &&& insert_result(t2, r2).len() == t1.len()
        }),
{
    let i = insert_index(s);
    let t1 = insert_result(s, r);
    let t2 = t1.update(i, HostRef::Null);
    lemma_last_free_slot(s, s.len() as int);
    assert(0 <= i <= s.len());
    assert(forall|j: int| i < j < t2.len() ==> t2[j] == s[j] && !(s[j] is Null));
    lemma_insert_index_of_free(t2, i);
}

/// Law: when every slot is occupied, an insertion returns the previous table
/// size and grows the table by one.
pub proof fn lemma_insert_grows_when_full(s: Seq<HostRef>, r: HostRef)
    requires
        !(r is Null),
        forall|j: int| 0 <= j < s.len() ==> !(s[j] is Null),
    ensures
        insert_index(s) == s.len(),
        insert_result(s, r) == s.push(r),
{
    lemma_last_free_slot(s, s.len() as int);
    if last_free_slot(s, s.len() as int) >= 0 {
        assert(s[last_free_slot(s, s.len() as int)] is Null);
    }
}

} // verus!
