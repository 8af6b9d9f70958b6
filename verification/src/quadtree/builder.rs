//! Configuration of a quadtree.
use vstd::prelude::*;

verus! {

/// Configures how a quadtree partitions its objects
#[derive(Debug, Eq, PartialEq)]
pub struct QuadtreeBuilder {
    bucket_capacity: u32,
}

impl QuadtreeBuilder {
    /// The number of objects at which a bucket is split
    pub closed spec fn bucket_capacity_spec(&self) -> u32 {
        self.bucket_capacity
    }

    /// Sets the number of objects at which a bucket is split
    pub fn split_at(self, bucket_capacity: u32) -> (builder: Self)
        ensures
            builder.bucket_capacity_spec() == bucket_capacity,
    {
        QuadtreeBuilder { bucket_capacity }
    }
}

impl Default for QuadtreeBuilder {
    fn default() -> (builder: Self)
        ensures
            builder.bucket_capacity_spec() == 4,
    {
        QuadtreeBuilder { bucket_capacity: 4 }
    }
}

} // verus!
