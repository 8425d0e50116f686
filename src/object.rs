//! What the reconciler asks of a render object.
use vstd::prelude::*;

verus! {

/// Requests a render object makes while it is updated.
#[derive(Clone, Copy, Debug, PartialEq, Eq, Structural)]
pub struct UpdateCtx {
    pub layout_requested: bool,
}

impl UpdateCtx {
    pub fn new() -> (r: UpdateCtx)
        ensures
            !r.layout_requested,
    {
        UpdateCtx { layout_requested: false }
    }

    /// Ask for the node to be laid out again.
    pub fn request_layout(&mut self)
        ensures
            final(self).layout_requested,
    {
        self.layout_requested = true;
    }
}

/// A render object built from properties `P`.
///
/// The reconciler calls `create` when a declaration finds no node for its
/// key, and `update` with the freshly declared properties when it finds one.
pub trait RenderObject<P>: Sized {
    /// What an update reports back to the declaring code.
    type Action: Default;

    fn create(props: P) -> Self;

    fn update(&mut self, ctx: &mut UpdateCtx, props: P) -> Self::Action;
}

} // verus!
