use vstd::prelude::*;

verus! {

/// One step of an edit script that turns a source sequence into a target sequence.
///
/// The script is replayed with a read cursor over the source and an output buffer:
/// `Keep` and `Substitute` consume one source element and emit one element,
/// `Delete` consumes one source element and emits nothing,
/// `Insert` emits one element without consuming anything.
#[derive(Copy, Debug, PartialEq, Eq)]
pub enum Edit<'a, T: 'a + Eq> {
    /// Emit this element of the target at the current output position.
    Insert(&'a T),
    /// Drop the next element of the source.
    Delete,
    /// Drop the next element of the source and emit this target element in its place.
    Substitute(&'a T),
    /// Emit the next element of the source unchanged.
    Keep,
}

impl<'a, T: 'a + Eq> Clone for Edit<'a, T> {
    fn clone(&self) -> (r: Self)
        ensures
            r == *self,
    {
        match self {
            Edit::Insert(t) => Edit::Insert(*t),
            Edit::Delete => Edit::Delete,
            Edit::Substitute(t) => Edit::Substitute(*t),
            Edit::Keep => Edit::Keep,
        }
    }
}

} // verus!
