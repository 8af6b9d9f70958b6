//! Implementations for [`IgnoringCollisionFilter`]
use crate::simulation_impl::AnyHandle;
use std::collections::HashSet;
use vstd::prelude::*;

verus! {

broadcast use vstd::std_specs::hash::group_hash_axioms;

/// Two handles of objects that might collide; their order carries no meaning
#[derive(Debug, Clone, Copy)]
pub struct HandlePair(pub AnyHandle, pub AnyHandle);

/// Whether a filter that ignores the handles in `ignored` lets `pair` through:
/// it does unless one of the two handles is ignored
pub open spec fn is_pair_valid_with(ignored: Set<usize>, pair: HandlePair) -> bool {
    !(ignored.contains(pair.0.0) || ignored.contains(pair.1.0))
}

/// A filter for the broad phase that checks if a pair should
/// be examined more closely for collisions. This filter allows the explicit
/// exclusion of body or sensor handles, which will have all their collisions
/// marked as invalid.
pub trait IgnoringCollisionFilter {
    /// The handles that this filter ignores; a verified implementation defines it, for one
    /// that does not it stays opaque
    #[verifier::opaque]
    closed spec fn ignored_handles(&self) -> Set<usize> {
        arbitrary()
    }

    /// Registers a handle that should be ignored by this filter.
    fn add_ignored_handle(&mut self, handle: AnyHandle)
        ensures
            final(self).ignored_handles() == old(self).ignored_handles().insert(handle.0),
    ;

    /// Checks if a handle has been previously registered as ignored with
    /// [`add_ignored_handle`].
    ///
    /// [`add_ignored_handle`]: #tymethod.add_ignored_handle
    fn is_handle_ignored(&self, handle: AnyHandle) -> (ignored: bool)
        ensures
            ignored == self.ignored_handles().contains(handle.0),
    ;

    /// Unregisters a handle that has been previously registered as ignored with
    /// [`add_ignored_handle`].
    ///
    /// [`add_ignored_handle`]: #tymethod.add_ignored_handle
    fn remove_ignored_handle(&mut self, handle: AnyHandle)
        ensures
            final(self).ignored_handles() == old(self).ignored_handles().remove(handle.0),
    ;

    /// Checks if the pair should be considered a collision or not.
    /// Returns `false` if the pair should be ignored.
    fn is_pair_valid(&self, pair: HandlePair) -> (valid: bool)
        ensures
            valid == is_pair_valid_with(self.ignored_handles(), pair),
    ;

    /// Takes note of a body that enters the world under `handle`: the handle of a passable
    /// body is ignored from now on, that of a solid one is left as it is.
    fn note_added_body(&mut self, handle: AnyHandle, passable: bool)
        ensures
            final(self).ignored_handles() == if passable {
                old(self).ignored_handles().insert(handle.0)
            } else {
                old(self).ignored_handles()
            },
    {
        if passable {
            self.add_ignored_handle(handle);
        }
    }

    /// Takes note of a body that leaves the world from under `handle`: the handle of a
    /// passable body is no longer ignored, that of a solid one is left as it is.
    fn note_removed_body(&mut self, handle: AnyHandle, passable: bool)
        ensures
            final(self).ignored_handles() == if passable {
                old(self).ignored_handles().remove(handle.0)
            } else {
                old(self).ignored_handles()
            },
    {
        if passable {
            self.remove_ignored_handle(handle);
        }
    }
}

/// An [`IgnoringCollisionFilter`] that keeps the ignored handles in a set.
///
/// Its view is the set of the ignored handles.
#[derive(Debug)]
pub struct IgnoringCollisionFilterImpl {
    ignored_handles: HashSet<usize>,
}

impl View for IgnoringCollisionFilterImpl {
    type V = Set<usize>;

    closed spec fn view(&self) -> Set<usize> {
        self.ignored_handles@
    }
}

impl Default for IgnoringCollisionFilterImpl {
    /// A filter that ignores nothing
    fn default() -> (filter: Self)
        ensures
            filter@ == Set::<usize>::empty(),
    {
        IgnoringCollisionFilterImpl { ignored_handles: HashSet::new() }
    }
}

impl IgnoringCollisionFilter for IgnoringCollisionFilterImpl {
    closed spec fn ignored_handles(&self) -> Set<usize> {
        self@
    }

    fn add_ignored_handle(&mut self, handle: AnyHandle)
        ensures
            final(self)@ == old(self)@.insert(handle.0),
    {
        self.ignored_handles.insert(handle.0);
    }

    fn is_handle_ignored(&self, handle: AnyHandle) -> (ignored: bool)
        ensures
            ignored == self@.contains(handle.0),
    {
        self.ignored_handles.contains(&handle.0)
    }

    fn remove_ignored_handle(&mut self, handle: AnyHandle)
        ensures
            final(self)@ == old(self)@.remove(handle.0),
    {
        self.ignored_handles.remove(&handle.0);
    }

    fn is_pair_valid(&self, pair: HandlePair) -> (valid: bool)
        ensures
            valid == is_pair_valid_with(self@, pair),
    {
        !(self.ignored_handles.contains(&pair.0.0) || self.ignored_handles.contains(&pair.1.0))
    }
}

/// The order of the two handles of a pair does not change whether the pair is valid.
pub proof fn law_pair_validity_is_symmetric(ignored: Set<usize>, first: AnyHandle, second: AnyHandle)
    ensures
        is_pair_valid_with(ignored, HandlePair(first, second)) == is_pair_valid_with(
            ignored,
            HandlePair(second, first),
        ),
{
}

/// A pair that holds an ignored handle is never valid.
pub proof fn law_ignored_handle_invalidates_its_pairs(
    ignored: Set<usize>,
    handle: AnyHandle,
    other: AnyHandle,
)
    requires
        ignored.contains(handle.0),
    ensures
        !is_pair_valid_with(ignored, HandlePair(handle, other)),
        !is_pair_valid_with(ignored, HandlePair(other, handle)),
{
}

/// Adding a handle and then removing it again leaves a filter that ignores what it
/// ignored before, but for that handle: in particular, a filter that did not ignore
/// the handle is as it was.
pub proof fn law_add_then_remove_unignores(ignored: Set<usize>, handle: AnyHandle)
    ensures
        ignored.insert(handle.0).remove(handle.0) == ignored.remove(handle.0),
        !ignored.contains(handle.0) ==> ignored.insert(handle.0).remove(handle.0) == ignored,
        !ignored.insert(handle.0).remove(handle.0).contains(handle.0),
{
    assert(ignored.insert(handle.0).remove(handle.0) =~= ignored.remove(handle.0));
    if !ignored.contains(handle.0) {
        assert(ignored.remove(handle.0) =~= ignored);
    }
}

} // verus!
