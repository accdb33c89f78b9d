//! The frame driver: one buffer, one tick counter, one frame per step.
//!
//! The driver does no input or output and knows no clock. For each tick its
//! caller works out where the corners of the cube appear, hands those
//! positions to [`FrameDriver::step`], writes the returned bytes to the
//! terminal and waits for [`FRAME_INTERVAL_MS`] before the next tick. No
//! frame depends on an earlier one: the buffer is cleared at every step and
//! only the counter is carried over.

use vstd::prelude::*;
use crate::buffer::{blank_grid, FrameBuffer, Glyph};
use crate::line::Pixel;
use crate::raster::{rasterize, rasterized};
use crate::terminal::{frame_text, render_text};

verus! {

/// Columns of the screen.
pub const SCREEN_WIDTH: u16 = 60;

/// Rows of the screen.
pub const SCREEN_HEIGHT: u16 = 30;

/// Pause between two frames in milliseconds.
pub const FRAME_INTERVAL_MS: u64 = 30;

/// The state that lasts from frame to frame.
pub struct FrameDriver {
    frame: FrameBuffer,
    ticks: u64,
}

impl FrameDriver {
    /// The buffer is well formed.
    pub closed spec fn wf(&self) -> bool {
        self.frame.wf()
    }

    /// How many frames have been drawn, as far as the counter can count.
    pub closed spec fn elapsed(&self) -> nat {
        self.ticks as nat
    }

    /// The frame drawn last; blank before the first step.
    pub closed spec fn grid(&self) -> Seq<Seq<Glyph>> {
        self.frame@
    }

    /// Columns of the frame.
    pub closed spec fn cols(&self) -> nat {
        self.frame.cols()
    }

    /// Rows of the frame.
    pub closed spec fn rows(&self) -> nat {
        self.frame.rows()
    }

    /// Creates a driver at tick zero with a blank frame of the given size.
    pub fn new(width: u16, height: u16) -> (driver: Self)
        ensures
            driver.wf(),
            driver.elapsed() == 0,
            driver.cols() == width,
            driver.rows() == height,
            driver.grid() == blank_grid(width as nat, height as nat),
    {
        FrameDriver { frame: FrameBuffer::new(width, height), ticks: 0 }
    }

    /// Returns the number of the tick that the next step draws. The first
    /// frame is tick zero.
    pub fn ticks(&self) -> (t: u64)
        ensures
            t == self.elapsed(),
    {
        self.ticks
    }

    /// Gives read access to the frame drawn last.
    pub fn frame(&self) -> (frame: &FrameBuffer)
        requires
            self.wf(),
        ensures
            frame.wf(),
            frame@ == self.grid(),
            frame.cols() == self.cols(),
            frame.rows() == self.rows(),
    {
        &self.frame
    }

    /// Draws the frame for the current tick and moves on to the next one.
    ///
    /// The buffer is cleared, the markers and the wireframe for `points`
    /// are drawn into it, and the bytes that show it on the terminal are
    /// returned. The counter goes up by one and stops at its largest value
    /// rather than wrap round.
    pub fn step(&mut self, points: &[Option<Pixel>; 8]) -> (text: Vec<u8>)
        requires
            old(self).wf(),
        ensures
            final(self).wf(),
            final(self).cols() == old(self).cols(),
            final(self).rows() == old(self).rows(),
            final(self).grid() == rasterized(
                blank_grid(old(self).cols(), old(self).rows()),
                points@,
            ),
            text@ == frame_text(final(self).grid()),
            final(self).elapsed() == if old(self).elapsed() < u64::MAX {
                old(self).elapsed() + 1
            } else {
                old(self).elapsed()
            },
    {
        self.frame.clear();
        rasterize(&mut self.frame, points);
        self.ticks = self.ticks.saturating_add(1);
        render_text(&self.frame)
    }
}

} // verus!
