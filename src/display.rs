use crate::pipeline::{RenderError, SurfaceInstance, SurfaceProvider};
use vstd::prelude::*;

verus! {

#[verifier::external_type_specification]
#[verifier::external_body]
pub struct ExDisplay(glium::Display);

#[verifier::external_type_specification]
#[verifier::external_body]
pub struct ExFrame(glium::Frame);

#[verifier::external_type_specification]
#[verifier::external_body]
pub struct ExSwapBuffersError(glium::SwapBuffersError);

/// Relies on glium::Display::draw to start a frame on the window's default
/// framebuffer.
#[verifier::external_body]
fn begin_frame(display: &glium::Display) -> glium::Frame {
    display.draw()
}

/// Relies on glium::Frame::finish to swap the buffers and consume the frame.
#[verifier::external_body]
fn finish_frame(frame: glium::Frame) -> Result<(), glium::SwapBuffersError> {
    frame.finish()
}

/// A frame of the presentable surface; presenting it is all that can be
/// done with it once drawing is over.
pub struct FrameWrapper(glium::Frame);

impl FrameWrapper {
    fn new(frame: glium::Frame) -> (r: Self)
        ensures
            r.0 == frame,
    {
        FrameWrapper(frame)
    }

    /// Presents the frame.
    pub fn swapchains(self) -> (r: Result<(), RenderError>)
        ensures
            r is Err ==> r == Err::<(), RenderError>(RenderError::Presentation),
    {
        match finish_frame(self.0) {
            Ok(()) => Ok(()),
            Err(_) => Err(RenderError::Presentation),
        }
    }
}

impl SurfaceInstance<glium::Frame, FrameWrapper> for FrameWrapper {
    fn surface(&mut self) -> (r: &mut glium::Frame) {
        &mut self.0
    }

    fn output(self) -> (r: FrameWrapper) {
        self
    }
}

/// Provider of the presentable surface: each frame draws straight to the
/// window and hands the frame on for presentation.
pub struct DisplaySurfaceProvider;

impl<'provider> SurfaceProvider<'provider, glium::Display> for DisplaySurfaceProvider {
    type Surface = glium::Frame;
    type Output = FrameWrapper;
    type Target = FrameWrapper;

    /// Obtaining a frame of the window never fails.
    open spec fn provides(&self, after: Self, r: Result<FrameWrapper, RenderError>) -> bool {
        r is Ok
    }

    /// Building it never fails.
    open spec fn made(ctx: &glium::Display, r: Result<Self, RenderError>) -> bool {
        r is Ok
    }

    fn new(_display: &glium::Display) -> (r: Result<Self, RenderError>) {
        Ok(DisplaySurfaceProvider)
    }

    fn get(&'provider mut self, display: &'provider glium::Display) -> (r: Result<FrameWrapper, RenderError>) {
        Ok(FrameWrapper::new(begin_frame(display)))
    }
}

} // verus!
