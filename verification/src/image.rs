//! The trailer stands at the end of the shim's own file, last byte first:
//! the file read back to front begins with the trailer in reading order.

use vstd::prelude::*;

verus! {

/// The items of `items` in the opposite order.
pub fn reversed<T>(items: Vec<T>) -> (turned: Vec<T>)
    ensures
        turned@ == items@.reverse(),
{
    let mut items = items;
    let ghost whole = items@;
    let mut turned: Vec<T> = Vec::new();
    loop
        invariant
            items@.len() + turned@.len() == whole.len(),
            items@ == whole.take(items@.len() as int),
            forall|i: int| 0 <= i < turned@.len() ==> turned@[i] == whole[whole.len() - 1 - i],
        ensures
            items@.len() == 0,
        decreases items@.len(),
    {
        match items.pop() {
            Some(item) => {
                turned.push(item);
            },
            None => {
                break ;
            },
        }
    }
    assert(turned@ =~= whole.reverse());
    turned
}

} // verus!
