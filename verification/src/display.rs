//! The pixel surface: a frame buffer in strand order, written through
//! logical coordinates.
//!
//! The buffer is the display's only state. Every write is visible to the
//! next reader of [`LedDisplay::frame`]; there is no second buffer behind
//! it.

use vstd::prelude::*;
use crate::color::Color;
use crate::geometry::{Point, Size};
use crate::frame::{
    cleared, drawn, drawn_all, led_of, lemma_led_in_frame, on_panel, solid, verdict, verdicts,
    Pixel, PIXELS, SIDE,
};
use crate::mapping::{strand_index_of, DrawError};

verus! {

/// A panel of `SIDE` by `SIDE` LEDs and the colours they are to show.
pub struct LedDisplay {
    frame_buffer: [Color; PIXELS],
}

impl View for LedDisplay {
    type V = Seq<Color>;

    /// The colours of the LEDs in strand order, the first LED first.
    closed spec fn view(&self) -> Seq<Color> {
        self.frame_buffer@
    }
}

impl LedDisplay {
    /// A frame holds one colour for each LED of the strand.
    pub proof fn lemma_frame_len(self)
        ensures
            self@.len() == PIXELS,
    {
    }

    /// A display with every LED switched off.
    pub fn new() -> (display: Self)
        ensures
            display@ == solid(Color::off()),
    {
        let display = LedDisplay { frame_buffer: [Color::default(); PIXELS] };
        assert(display@ =~= solid(Color::off()));
        display
    }

    /// The extent of the surface, the same for the display's whole life.
    pub fn size(&self) -> (size: Size)
        ensures
            size == (Size { width: SIDE as u32, height: SIDE as u32 }),
    {
        Size::new(SIDE as u32, SIDE as u32)
    }

    /// The position in the frame of the LED that shows `point`, or
    /// `OutOfBounds` for a point that is not on the panel.
    pub fn index_top_left(&self, point: Point) -> (result: Result<usize, DrawError>)
        ensures
            match result {
                Ok(index) => on_panel(point) && index == led_of(point) && index < PIXELS,
                Err(error) => !on_panel(point) && error == DrawError::OutOfBounds,
            },
    {
        proof {
            if on_panel(point) {
                lemma_led_in_frame(point);
            }
        }
        strand_index_of(SIDE, point)
    }

    /// Sets every LED to `color`.
    pub fn clear(&mut self, color: Color)
        ensures
            final(self)@ == cleared(old(self)@, color),
    {
        let mut led: usize = 0;
        while led < PIXELS
            invariant
                led <= PIXELS,
                forall|i: int| 0 <= i < led ==> self.frame_buffer@[i] == color,
            decreases PIXELS - led,
        {
            self.frame_buffer[led] = color;
            led += 1;
        }
        assert(self@ =~= cleared(old(self)@, color));
    }

    /// Draws `color` at `point`. A point that is not on the panel leaves
    /// the frame as it was and is reported as `OutOfBounds`.
    pub fn draw_pixel(&mut self, point: Point, color: Color) -> (result: Result<(), DrawError>)
        ensures
            final(self)@ == drawn(old(self)@, point, color),
            result == verdict(point),
    {
        match self.index_top_left(point) {
            Ok(index) => {
                self.frame_buffer[index] = color;
                Ok(())
            },
            Err(error) => Err(error),
        }
    }

    /// Draws `pixels` in their order, each as `draw_pixel` does, and reports
    /// on each. A pixel that is not on the panel is reported and skipped; the
    /// pixels after it are drawn all the same.
    pub fn draw_iter(&mut self, pixels: &[Pixel]) -> (reports: Vec<Result<(), DrawError>>)
        ensures
            final(self)@ == drawn_all(old(self)@, pixels@),
            reports@ == verdicts(pixels@),
    {
        let mut reports: Vec<Result<(), DrawError>> = Vec::new();
        let mut next: usize = 0;
        while next < pixels.len()
            invariant
                next <= pixels.len(),
                self@ == drawn_all(old(self)@, pixels@.take(next as int)),
                reports@ == verdicts(pixels@.take(next as int)),
            decreases pixels.len() - next,
        {
            let Pixel(point, color) = pixels[next];
            let report = self.draw_pixel(point, color);
            reports.push(report);
            proof {
                let before = pixels@.take(next as int);
                let after = pixels@.take(next as int + 1);
                assert(after.drop_last() =~= before);
                assert(reports@ =~= verdicts(after));
            }
            next += 1;
        }
        assert(pixels@.take(next as int) =~= pixels@);
        reports
    }

    /// The colours to transmit, in strand order: the first LED of the
    /// strand first.
    pub fn frame(&self) -> (frame: &[Color; PIXELS])
        ensures
            frame@ == self@,
    {
        &self.frame_buffer
    }
}

} // verus!
