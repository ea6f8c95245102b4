//! Guest-side resource handles.
//!
//! A resource is a plain integer index into the reference table — the
//! surrogate the guest holds in place of a host reference. On the host side
//! of the boundary, where no reference table import is linked, the surrogate
//! carries the index itself; these are the semantics given here. Resources
//! are cheap to store anywhere, and carry a marker type for type safety.

use core::marker::PhantomData;

use vstd::prelude::*;

use crate::table::NULL_INDEX;
use crate::ExternRef;

verus! {

/// Seals [`DropGuard`]: it cannot be implemented outside this crate.
pub trait Sealed {
}

/// Drop behavior of a [`Resource`]: what the handle does with its table slot
/// when it goes out of scope. [`Register`] is the default, releasing the slot;
/// [`Forget`] never touches it, so such handles can be freely copied.
pub trait DropGuard: Sealed {
    /// The table index this guard holds.
    spec fn spec_id(&self) -> usize;

    /// Wraps a table index.
    fn from_id(id: usize) -> (r: Self) where Self: core::marker::Sized
        ensures
            r.spec_id() == id,
    ;

    /// The table index this guard holds.
    fn as_id(&self) -> (r: usize)
        ensures
            r == self.spec_id(),
    ;
}

/// A [`DropGuard`] that leaves its table slot alone.
#[derive(Debug, Clone, Copy)]
pub struct Forget(pub usize);

impl Sealed for Forget {

}

impl DropGuard for Forget {
    open spec fn spec_id(&self) -> usize {
        self.0
    }

    fn from_id(id: usize) -> (r: Forget) {
        Forget(id)
    }

    fn as_id(&self) -> (r: usize) {
        self.0
    }
}

/// A [`DropGuard`] whose slot is released when the handle is dropped; inside
/// a processed module the drop releases the table slot and invokes the
/// configured drop notification.
#[derive(Debug)]
pub struct Register(pub usize);

impl Sealed for Register {

}

impl DropGuard for Register {
    open spec fn spec_id(&self) -> usize {
        self.0
    }

    fn from_id(id: usize) -> (r: Register) {
        Register(id)
    }

    fn as_id(&self) -> (r: usize) {
        self.0
    }
}

/// Host resource exposed to the guest: an index into the reference table,
/// tagged with a marker type.
#[derive(Debug)]
pub struct Resource<T, D = Register> {
    drop_guard: D,
    _ty: PhantomData<T>,
}

/// A resource that never releases its table slot, and so can be copied.
pub type ResourceCopy<T> = Resource<T, Forget>;

impl<T, D: DropGuard> Resource<T, D> {
    /// The table index this resource holds.
    pub closed spec fn id(&self) -> usize {
        self.drop_guard.spec_id()
    }

    /// Wraps a surrogate obtained from the host boundary; the sentinel value
    /// denotes a null reference and yields no resource.
    pub fn new(id: ExternRef) -> (r: Option<Resource<T, D>>)
        ensures
            id.0 == NULL_INDEX <==> r is None,
            r matches Some(res) ==> res.id() == id.0,
    {
        if id.0 == NULL_INDEX {
            None
        } else {
            Some(Resource { drop_guard: D::from_id(id.0), _ty: PhantomData })
        }
    }

    /// Wraps a surrogate known to be non-null; the sentinel is excluded up
    /// front, where the guest version would abort on a null reference.
    pub fn new_non_null(id: ExternRef) -> (r: Resource<T, D>)
        requires
            id.0 != NULL_INDEX,
        ensures
            r.id() == id.0,
    {
        Resource { drop_guard: D::from_id(id.0), _ty: PhantomData }
    }

    /// Hands the surrogate of this resource — or the null sentinel — back to
    /// the host boundary.
    pub fn raw(this: Option<&Resource<T, D>>) -> (r: ExternRef)
        ensures
            match this {
                Some(res) => r.0 == res.id(),
                None => r.0 == NULL_INDEX,
            },
    {
        ExternRef(
            match this {
                None => NULL_INDEX,
                Some(resource) => resource.drop_guard.as_id(),
            },
        )
    }

    /// Hands the surrogate back and consumes the resource.
    pub fn take_raw(this: Option<Resource<T, D>>) -> (r: ExternRef)
        ensures
            match this {
                Some(res) => r.0 == res.id(),
                None => r.0 == NULL_INDEX,
            },
    {
        Resource::raw(this.as_ref())
    }

    /// Upcasts this resource to a generic resource.
    pub fn upcast(self) -> (r: Resource<(), D>)
        ensures
            r.id() == self.id(),
    {
        Resource { drop_guard: self.drop_guard, _ty: PhantomData }
    }
}

impl<D: DropGuard> Resource<(), D> {
    /// Downcasts this generic resource to a specific type. No check is made
    /// that the resource encapsulates what `T` means; callers check
    /// beforehand, for instance through a host import inspecting the value.
    pub fn downcast_unchecked<T>(self) -> (r: Resource<T, D>)
        ensures
            r.id() == self.id(),
    {
        Resource { drop_guard: self.drop_guard, _ty: PhantomData }
    }
}

impl<T> Resource<T, Register> {
    /// Leaks this resource: the returned copyable handle never releases the
    /// table slot. Like forgetting a boxed value, this is safe but may
    /// starve the table.
    pub fn leak(self) -> (r: ResourceCopy<T>)
        ensures
            r.id() == self.id(),
    {
        Resource { drop_guard: Forget(self.drop_guard.0), _ty: PhantomData }
    }
}

/// Compares resources by their table index: two handles are equal exactly
/// when they point at the same slot.
impl<T, D: DropGuard> PartialEq for Resource<T, D> {
    fn eq(&self, other: &Resource<T, D>) -> (r: bool) {
        self.drop_guard.as_id() == other.drop_guard.as_id()
    }
}

impl<T, D: DropGuard> vstd::std_specs::cmp::PartialEqSpecImpl for Resource<T, D> {
    open spec fn obeys_eq_spec() -> bool {
        true
    }

    open spec fn eq_spec(&self, other: &Resource<T, D>) -> bool {
        self.id() == other.id()
    }
}

impl<T, D: DropGuard> Eq for Resource<T, D> {

}

} // verus!
