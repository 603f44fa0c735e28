//! The sizes of the delegate selections.

use std::mem::size_of;

use krusty::resolve::delegated_properties::{
    DelegateConventionSelection, DelegateOperatorSelection, OrdinaryDelegateSelection,
};

/// Every delegate-convention rung returns one of these by value. Boxing the selected callable keeps
/// each selection a few words.
#[test]
fn delegate_selections_carry_a_pointer_to_their_callable() {
    assert_eq!(size_of::<DelegateOperatorSelection>(), 72);
    assert_eq!(size_of::<OrdinaryDelegateSelection>(), 72);
    assert_eq!(size_of::<DelegateConventionSelection>(), 40);
}
