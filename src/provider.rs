use crate::pipeline::RenderError;
use vstd::prelude::*;

verus! {

/// A render destination together with the resolution it was created at.
/// Before each use the cached resolution is compared with the current one,
/// and the destination is recreated, once, when they differ.
pub struct ResizingTarget<R> {
    dimensions: (u32, u32),
    resource: R,
    /// How many times the destination was recreated.
    recreations: Ghost<nat>,
}

/// The step that `refresh` takes from `before` to `after` for the current
/// resolution `current`, returning `r`: nothing happens when the resolution
/// is unchanged; otherwise a successful recreation replaces the destination,
/// records the new resolution and counts one recreation, and a failed one
/// changes nothing.
pub open spec fn refresh_step<R>(
    before: ResizingTarget<R>,
    after: ResizingTarget<R>,
    current: (u32, u32),
    r: Result<(), RenderError>,
) -> bool {
    if before.spec_dimensions() == current {
        after == before && r is Ok
    } else {
        match r {
            Ok(()) => {
                &&& after.spec_dimensions() == current
                &&& after.spec_recreations() == before.spec_recreations() + 1
            },
            Err(_) => after == before,
        }
    }
}

impl<R> ResizingTarget<R> {
    pub closed spec fn spec_dimensions(&self) -> (u32, u32) {
        self.dimensions
    }

    pub closed spec fn spec_resource(&self) -> R {
        self.resource
    }

    pub closed spec fn spec_recreations(&self) -> nat {
        self.recreations@
    }

    /// A target holding `resource`, created at `dimensions`.
    pub fn new(dimensions: (u32, u32), resource: R) -> (r: Self)
        ensures
            r.spec_dimensions() == dimensions,
            r.spec_resource() == resource,
            r.spec_recreations() == 0,
    {
        ResizingTarget { dimensions, resource, recreations: Ghost(0) }
    }

    #[verifier::when_used_as_spec(spec_dimensions)]
    pub fn dimensions(&self) -> (r: (u32, u32))
        ensures
            r == self.spec_dimensions(),
    {
        self.dimensions
    }

    pub fn resource(&self) -> (r: &R)
        ensures
            *r == self.spec_resource(),
    {
        &self.resource
    }

    /// Brings the destination up to the resolution `current`: when it
    /// differs from the cached one, `create` is called once with it and its
    /// result replaces the destination; an error from `create` is returned
    /// and leaves the target as it was.
    pub fn refresh<F>(&mut self, current: (u32, u32), create: F) -> (r: Result<(), RenderError>) where
        F: FnOnce((u32, u32)) -> Result<R, RenderError>,
        requires
            old(self).spec_dimensions() != current ==> create.requires((current,)),
        ensures
            refresh_step(*old(self), *final(self), current, r),
            old(self).spec_dimensions() == current ==> final(self).spec_resource() == old(self).spec_resource(),
            old(self).spec_dimensions() != current ==> exists|made: Result<R, RenderError>|
                #[trigger] create.ensures((current,), made) && match made {
                    Ok(res) => r is Ok && final(self).spec_resource() == res,
                    Err(e) => r == Err::<(), RenderError>(e),
                },
    {
        if self.dimensions.0 == current.0 && self.dimensions.1 == current.1 {
            return Ok(());
        }
        let made = create(current);
        match made {
            Ok(res) => {
                self.resource = res;
                self.dimensions = current;
                self.recreations = Ghost(self.recreations@ + 1);
                Ok(())
            },
            Err(e) => Err(e),
        }
    }
}

/// While the resolution stays the same, a second refresh after a successful
/// one keeps the very same destination and creates nothing; after a change
/// of resolution, a successful refresh records the new resolution and
/// counts exactly one recreation.
pub proof fn lemma_refresh_once<R>(
    t0: ResizingTarget<R>,
    t1: ResizingTarget<R>,
    t2: ResizingTarget<R>,
    current: (u32, u32),
    r2: Result<(), RenderError>,
)
    requires
        refresh_step(t0, t1, current, Ok(())),
        refresh_step(t1, t2, current, r2),
    ensures
        t1.spec_dimensions() == current,
        t0.spec_dimensions() != current ==> t1.spec_recreations() == t0.spec_recreations() + 1,
        t2 == t1,
        r2 is Ok,
{
}

} // verus!
