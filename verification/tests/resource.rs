//! Tests for guest-side resource handles.

use externref::resource::{Forget, Register, Resource};
use externref::table::NULL_INDEX;
use externref::ExternRef;

struct Sender;

#[test]
fn new_rejects_null_sentinel() {
    let resource: Option<Resource<Sender>> = Resource::new(ExternRef(NULL_INDEX));
    assert!(resource.is_none());
}

#[test]
fn raw_round_trips_the_index() {
    let resource: Resource<Sender> = Resource::new(ExternRef(3)).unwrap();
    let raw = Resource::raw(Some(&resource));
    assert_eq!(raw.0, 3);
    let null_raw: ExternRef = Resource::<Sender, Register>::raw(None);
    assert_eq!(null_raw.0, NULL_INDEX);
    let taken = Resource::take_raw(Some(resource));
    assert_eq!(taken.0, 3);
}

#[test]
fn leak_and_upcast_preserve_the_index() {
    let resource: Resource<Sender> = Resource::new(ExternRef(5)).unwrap();
    let copy: Resource<Sender, Forget> = resource.leak();
    let generic: Resource<(), Forget> = copy.upcast();
    assert_eq!(Resource::raw(Some(&generic)).0, 5);
    let back: Resource<Sender, Forget> = generic.downcast_unchecked();
    assert_eq!(Resource::raw(Some(&back)).0, 5);
    let other: Resource<Sender, Forget> = Resource::new(ExternRef(5)).unwrap();
    assert!(back == other);
}
