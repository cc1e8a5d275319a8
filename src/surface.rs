use vstd::prelude::*;

verus! {

/// The shapes of one frame's scene, in the order they were drawn.
pub struct RenderSurface<S> {
    shapes: Vec<S>,
}

impl<S> RenderSurface<S> {
    pub closed spec fn view(&self) -> Seq<S> {
        self.shapes@
    }

    pub fn new() -> (r: Self)
        ensures
            r@ == Seq::<S>::empty(),
    {
        RenderSurface { shapes: Vec::new() }
    }

    pub fn push(&mut self, shape: S)
        ensures
            final(self)@ == old(self)@.push(shape),
    {
        self.shapes.push(shape);
    }

    pub fn clear(&mut self)
        ensures
            final(self)@ == Seq::<S>::empty(),
    {
        self.shapes.clear();
    }

    pub fn is_empty(&self) -> (r: bool)
        ensures
            r == (self@.len() == 0),
    {
        self.shapes.len() == 0
    }

    pub fn len(&self) -> (r: usize)
        ensures
            r == self@.len(),
    {
        self.shapes.len()
    }

    /// The shapes, in drawing order.
    pub fn shapes(&self) -> (r: &Vec<S>)
        ensures
            r@ == self@,
    {
        &self.shapes
    }
}

/// Where a frame stands: waiting for `begin`, collecting shapes, or holding
/// samples ready to be drawn.
#[derive(Clone, Copy, Debug, PartialEq, Eq, Structural)]
pub enum Phase {
    Idle,
    Collecting,
    Ready,
}

/// The per-frame protocol around the sampler:
/// `begin`, then `draw` any number of times, then `end`.
pub struct Frame<S> {
    surface: RenderSurface<S>,
    phase: Phase,
    instance_count: usize,
}

impl<S> Frame<S> {
    pub closed spec fn phase_spec(&self) -> Phase {
        self.phase
    }

    /// The shapes drawn since the last `begin`.
    pub closed spec fn shapes_spec(&self) -> Seq<S> {
        self.surface@
    }

    /// How many samples the last `end` made ready.
    pub closed spec fn count_spec(&self) -> nat {
        self.instance_count as nat
    }

    pub fn new() -> (r: Self)
        ensures
            r.phase_spec() == Phase::Idle,
            r.shapes_spec() == Seq::<S>::empty(),
            r.count_spec() == 0,
    {
        Frame { surface: RenderSurface::new(), phase: Phase::Idle, instance_count: 0 }
    }

    pub fn phase(&self) -> (r: Phase)
        ensures
            r == self.phase_spec(),
    {
        self.phase
    }

    /// Starts a frame: the scene is emptied and no samples are ready.
    pub fn begin(&mut self)
        ensures
            final(self).phase_spec() == Phase::Collecting,
            final(self).shapes_spec() == Seq::<S>::empty(),
            final(self).count_spec() == 0,
    {
        self.surface.clear();
        self.instance_count = 0;
        self.phase = Phase::Collecting;
    }

    /// Adds one shape to the scene being collected.
    pub fn draw(&mut self, shape: S)
        requires
            old(self).phase_spec() == Phase::Collecting,
        ensures
            final(self).phase_spec() == Phase::Collecting,
            final(self).shapes_spec() == old(self).shapes_spec().push(shape),
            final(self).count_spec() == old(self).count_spec(),
    {
        self.surface.push(shape);
    }

    /// The scene being collected.
    pub fn surface(&self) -> (r: &RenderSurface<S>)
        ensures
            r@ == self.shapes_spec(),
    {
        &self.surface
    }

    /// Ends the frame once its samples are made: `count` of them are ready
    /// to be drawn and the scene is released. A frame with no shape has no
    /// surface to sample and cannot end.
    pub fn end(&mut self, count: usize)
        requires
            old(self).phase_spec() == Phase::Collecting,
            old(self).shapes_spec().len() > 0,
        ensures
            final(self).phase_spec() == Phase::Ready,
            final(self).shapes_spec() == Seq::<S>::empty(),
            final(self).count_spec() == count,
    {
        self.instance_count = count;
        self.surface.clear();
        self.phase = Phase::Ready;
    }

    /// How many samples are to be drawn: those of the last finished frame,
    /// none while a frame is being collected.
    pub fn instance_count(&self) -> (r: usize)
        ensures
            r == self.count_spec(),
    {
        self.instance_count
    }
}

} // verus!
