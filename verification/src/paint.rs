//! The painter contract: turn one frame's visual records into the draw
//! operations to submit — exactly one clear, then one draw per record,
//! each selecting a configuration out of a fixed resource pool by the
//! index carried on the record.
//!
//! The pool (textures, pipeline configurations) is assembled at startup
//! and read-only afterwards; the painter only ever checks indices
//! against its size. Submitting the operations to a device is a
//! collaborator's job outside this crate, so painting mutates nothing —
//! in particular no component storage.

use vstd::prelude::*;

verus! {

/// One draw-ready item: the resource (pipeline/texture) index and the
/// payload the draw call needs (for a sprite, its position data).
#[derive(Clone, Copy, Debug)]
pub struct DrawItem<V> {
    pub resource: usize,
    pub data: V,
}

/// One operation of a frame's draw pass.
#[derive(Clone, Copy, Debug)]
pub enum DrawOp<V> {
    /// Clear the render target; emitted exactly once, first.
    Clear,
    /// Draw one item with the pool configuration at `resource`.
    Draw { resource: usize, data: V },
}

/// A draw pass was refused: fail fast rather than draw with undefined
/// resource state.
#[derive(Clone, Copy, PartialEq, Eq, Structural, Debug)]
pub enum PaintError {
    /// The item at `position` asked for `resource`, but the pool only
    /// holds `pool_size` configurations.
    ResourceOutOfRange { position: usize, resource: usize, pool_size: usize },
}

/// The operations a valid draw pass emits: a clear, then the items in
/// order.
pub open spec fn draw_plan<V>(items: Seq<DrawItem<V>>) -> Seq<DrawOp<V>> {
    Seq::new(
        items.len() + 1,
        |i: int|
            if i == 0 {
                DrawOp::Clear
            } else {
                (DrawOp::Draw { resource: items[i - 1].resource, data: items[i - 1].data })
            },
    )
}

/// A painter: the size of the fixed resource pool it was built over.
pub struct Painter {
    /// How many pre-built draw configurations exist; fixed at startup.
    pub pool_size: usize,
}

impl<V: Copy> DrawItem<V> {
    /// Build one item.
    pub fn new(resource: usize, data: V) -> (r: Self)
        ensures
            r.resource == resource,
            r.data == data,
    {
        DrawItem { resource, data }
    }
}

impl Painter {
    /// A painter over a pool of `pool_size` pre-built configurations.
    pub fn new(pool_size: usize) -> (r: Self)
        ensures
            r.pool_size == pool_size,
    {
        Painter { pool_size }
    }

    /// Compute one frame's draw pass. Succeeds — with the clear first,
    /// then one draw per item in order — exactly when every item's
    /// resource index is inside the pool; otherwise it reports the
    /// first out-of-range item and emits nothing.
    pub fn paint<V: Copy>(&self, items: &Vec<DrawItem<V>>) -> (r: Result<Vec<DrawOp<V>>, PaintError>)
        ensures
            r is Ok <==> (forall|i: int| 0 <= i < items@.len()
                ==> (#[trigger] items@[i]).resource < self.pool_size),
            r matches Ok(ops) ==> ops@ == draw_plan(items@),
            r matches Err(e) ==> (e matches PaintError::ResourceOutOfRange { position, resource, pool_size }
                && pool_size == self.pool_size
                && 0 <= position < items@.len()
                && items@[position as int].resource == resource
                && resource >= self.pool_size
                && (forall|j: int| 0 <= j < position
                    ==> (#[trigger] items@[j]).resource < self.pool_size)),
    {
        let n = items.len();
        let mut ops: Vec<DrawOp<V>> = Vec::new();
        ops.push(DrawOp::Clear);
        let mut i: usize = 0;
        while i < n
            invariant
                n == items@.len(),
                i <= n,
                ops@.len() == i + 1,
                ops@[0] is Clear,
                forall|j: int| 0 <= j < i ==> (#[trigger] items@[j]).resource < self.pool_size,
                forall|j: int| 1 <= j < i + 1 ==> #[trigger] ops@[j]
                    == (DrawOp::Draw { resource: items@[j - 1].resource, data: items@[j - 1].data }),
            decreases n - i,
        {
            let item = items[i];
            if item.resource >= self.pool_size {
                return Err(PaintError::ResourceOutOfRange {
                    position: i,
                    resource: item.resource,
                    pool_size: self.pool_size,
                });
            }
            ops.push(DrawOp::Draw { resource: item.resource, data: item.data });
            i += 1;
        }
        proof {
            assert(ops@ =~= draw_plan(items@));
        }
        Ok(ops)
    }
}

} // verus!
