//! Frames as mathematical values: one colour for each LED, in strand order.
//!
//! The drawing operations of the display are stated here as functions from
//! frame to frame, together with what follows from the wiring being a
//! bijection: a write reaches exactly one LED, and a point off the panel
//! reaches none.

use vstd::prelude::*;
use crate::color::Color;
use crate::geometry::Point;
use crate::mapping::{
    in_bounds, lemma_index_in_range, lemma_index_is_injective, strand_index, DrawError,
};

verus! {

/// The number of pixels along each edge of the panel.
pub const SIDE: usize = 16;

/// The number of LEDs on the strand.
pub const PIXELS: usize = SIDE * SIDE;

/// One coloured point: where to draw, and in which colour.
#[derive(Clone, Copy, Debug, PartialEq, Eq, Structural, Hash)]
pub struct Pixel(pub Point, pub Color);

/// Whether `point` lies on the panel.
pub open spec fn on_panel(point: Point) -> bool {
    in_bounds(SIDE as nat, point.x as int, point.y as int)
}

/// The position on the strand of the LED that shows `point`.
pub open spec fn led_of(point: Point) -> int {
    strand_index(SIDE as nat, point.x as int, point.y as int)
}

/// The frame in which every LED shows `color`.
pub open spec fn solid(color: Color) -> Seq<Color> {
    Seq::new(PIXELS as nat, |led: int| color)
}

/// The frame that clearing to `color` makes of `frame`: as long as `frame`,
/// with every LED in that colour.
pub open spec fn cleared(frame: Seq<Color>, color: Color) -> Seq<Color> {
    Seq::new(frame.len(), |led: int| color)
}

/// The frame that drawing `color` at `point` makes of `frame`: the LED of
/// `point` takes the colour; a point off the panel changes nothing.
pub open spec fn drawn(frame: Seq<Color>, point: Point, color: Color) -> Seq<Color> {
    if on_panel(point) {
        frame.update(led_of(point), color)
    } else {
        frame
    }
}

/// The frame that drawing `pixels`, one after the other from the first to
/// the last, makes of `frame`.
pub open spec fn drawn_all(frame: Seq<Color>, pixels: Seq<Pixel>) -> Seq<Color>
    decreases pixels.len(),
{
    if pixels.len() == 0 {
        frame
    } else {
        drawn(drawn_all(frame, pixels.drop_last()), pixels.last().0, pixels.last().1)
    }
}

/// Whether no pixel after the one at `i` is drawn to the same point.
pub open spec fn is_last_write(pixels: Seq<Pixel>, i: int) -> bool {
    forall|j: int| i < j < pixels.len() ==> (#[trigger] pixels[j]).0 != pixels[i].0
}

/// What a write to `point` reports: success on the panel, `OutOfBounds`
/// off it.
pub open spec fn verdict(point: Point) -> Result<(), DrawError> {
    if on_panel(point) {
        Ok(())
    } else {
        Err(DrawError::OutOfBounds)
    }
}

/// What drawing a run of pixels reports: for each pixel its own verdict,
/// in the order of the run.
pub open spec fn verdicts(pixels: Seq<Pixel>) -> Seq<Result<(), DrawError>> {
    Seq::new(pixels.len(), |i: int| verdict(pixels[i].0))
}

/// A point on the panel has its LED within the frame.
pub proof fn lemma_led_in_frame(point: Point)
    requires
        on_panel(point),
    ensures
        0 <= led_of(point) < PIXELS,
{
    lemma_index_in_range(SIDE as nat, point.x as int, point.y as int);
}

/// Two points on the panel with the same LED are the same point.
pub proof fn lemma_led_is_its_own(first: Point, second: Point)
    requires
        on_panel(first),
        on_panel(second),
        led_of(first) == led_of(second),
    ensures
        first == second,
{
    lemma_index_is_injective(
        SIDE as nat,
        first.x as int,
        first.y as int,
        second.x as int,
        second.y as int,
    );
}

/// Clearing leaves every LED in the colour cleared to, and clearing a
/// second time to the same colour changes nothing more.
pub proof fn lemma_clear_is_idempotent(frame: Seq<Color>, color: Color)
    ensures
        cleared(frame, color).len() == frame.len(),
        forall|led: int| 0 <= led < frame.len() ==> cleared(frame, color)[led] == color,
        cleared(cleared(frame, color), color) == cleared(frame, color),
        frame.len() == PIXELS ==> cleared(frame, color) == solid(color),
{
    assert(cleared(cleared(frame, color), color) =~= cleared(frame, color));
    if frame.len() == PIXELS {
        assert(cleared(frame, color) =~= solid(color));
    }
}

/// After a pixel on the panel is drawn, its LED shows the colour drawn and
/// every other LED shows what it showed before.
pub proof fn lemma_drawn_on_panel(frame: Seq<Color>, point: Point, color: Color)
    requires
        frame.len() == PIXELS,
        on_panel(point),
    ensures
        drawn(frame, point, color).len() == PIXELS,
        drawn(frame, point, color)[led_of(point)] == color,
        forall|led: int|
            0 <= led < PIXELS && led != led_of(point) ==> drawn(frame, point, color)[led]
                == frame[led],
{
    lemma_led_in_frame(point);
}

/// Drawing at one point of the panel does not change what any other point
/// of the panel shows.
pub proof fn lemma_drawn_keeps_other_points(
    frame: Seq<Color>,
    point: Point,
    color: Color,
    other: Point,
)
    requires
        frame.len() == PIXELS,
        on_panel(other),
        other != point,
    ensures
        drawn(frame, point, color)[led_of(other)] == frame[led_of(other)],
{
    lemma_led_in_frame(other);
    if on_panel(point) {
        lemma_led_in_frame(point);
        if led_of(point) == led_of(other) {
            lemma_led_is_its_own(point, other);
        }
    }
}

/// A point off the panel is not drawn: the frame stays as it was.
pub proof fn lemma_drawn_off_panel(frame: Seq<Color>, point: Point, color: Color)
    requires
        !on_panel(point),
    ensures
        drawn(frame, point, color) == frame,
{
}

/// Drawing never changes the number of LEDs in the frame.
pub proof fn lemma_drawn_all_len(frame: Seq<Color>, pixels: Seq<Pixel>)
    requires
        frame.len() == PIXELS,
    ensures
        drawn_all(frame, pixels).len() == PIXELS,
    decreases pixels.len(),
{
    if pixels.len() > 0 {
        lemma_drawn_all_len(frame, pixels.drop_last());
        if on_panel(pixels.last().0) {
            lemma_led_in_frame(pixels.last().0);
        }
    }
}

/// Drawing one run of pixels and then another is drawing the two runs as
/// one.
pub proof fn lemma_drawn_all_concat(frame: Seq<Color>, first: Seq<Pixel>, second: Seq<Pixel>)
    ensures
        drawn_all(frame, first + second) == drawn_all(drawn_all(frame, first), second),
    decreases second.len(),
{
    if second.len() == 0 {
        assert(first + second =~= first);
    } else {
        lemma_drawn_all_concat(frame, first, second.drop_last());
        assert((first + second).drop_last() =~= first + second.drop_last());
        assert((first + second).last() == second.last());
    }
}

/// An LED that none of the pixels on the panel is drawn to shows what it
/// showed before.
pub proof fn lemma_drawn_all_keeps_untouched(frame: Seq<Color>, pixels: Seq<Pixel>, led: int)
    requires
        frame.len() == PIXELS,
        0 <= led < PIXELS,
        forall|i: int|
            0 <= i < pixels.len() && on_panel(#[trigger] pixels[i].0) ==> led_of(pixels[i].0)
                != led,
    ensures
        drawn_all(frame, pixels)[led] == frame[led],
    decreases pixels.len(),
{
    if pixels.len() > 0 {
        let rest = pixels.drop_last();
        assert forall|i: int| 0 <= i < rest.len() && on_panel(#[trigger] rest[i].0) implies led_of(
            rest[i].0,
        ) != led by {
            assert(rest[i] == pixels[i]);
        }
        lemma_drawn_all_keeps_untouched(frame, rest, led);
        lemma_drawn_all_len(frame, rest);
        let last = pixels[pixels.len() - 1];
        if on_panel(last.0) {
            lemma_led_in_frame(last.0);
        }
    }
}

/// A pixel on the panel shows in the frame, unless a later pixel of the
/// same run is drawn to the same point.
pub proof fn lemma_drawn_all_shows_last_write(frame: Seq<Color>, pixels: Seq<Pixel>, i: int)
    requires
        frame.len() == PIXELS,
        0 <= i < pixels.len(),
        on_panel(pixels[i].0),
        is_last_write(pixels, i),
    ensures
        drawn_all(frame, pixels)[led_of(pixels[i].0)] == pixels[i].1,
    decreases pixels.len(),
{
    let rest = pixels.drop_last();
    let last = pixels.last();
    lemma_drawn_all_len(frame, rest);
    if i == pixels.len() - 1 {
        lemma_drawn_on_panel(drawn_all(frame, rest), last.0, last.1);
    } else {
        assert(rest[i] == pixels[i]);
        assert(is_last_write(rest, i)) by {
            assert forall|j: int| i < j < rest.len() implies (#[trigger] rest[j]).0
                != rest[i].0 by {
                assert(rest[j] == pixels[j]);
            }
        }
        lemma_drawn_all_shows_last_write(frame, rest, i);
        assert(last == pixels[pixels.len() - 1]);
        lemma_drawn_keeps_other_points(drawn_all(frame, rest), last.0, last.1, pixels[i].0);
    }
}

/// A pixel off the panel has no part in the frame: the run draws what it
/// would draw without that pixel.
pub proof fn lemma_drawn_all_skips_off_panel(frame: Seq<Color>, pixels: Seq<Pixel>, k: int)
    requires
        0 <= k < pixels.len(),
        !on_panel(pixels[k].0),
    ensures
        drawn_all(frame, pixels) == drawn_all(frame, pixels.remove(k)),
{
    let before = pixels.take(k);
    let rejected = pixels.subrange(k, k + 1);
    let after = pixels.skip(k + 1);
    assert(pixels =~= before + rejected + after);
    assert(pixels.remove(k) =~= before + after);
    lemma_drawn_all_concat(frame, before + rejected, after);
    lemma_drawn_all_concat(frame, before, rejected);
    lemma_drawn_all_concat(frame, before, after);
    assert(rejected.drop_last() =~= Seq::<Pixel>::empty());
    assert(drawn_all(drawn_all(frame, before), rejected.drop_last()) == drawn_all(frame, before));
}

/// One pixel off the panel among pixels on the panel: that pixel alone is
/// reported as out of bounds, the frame is what the other pixels alone would
/// have drawn, and each of them shows in it unless a later one is drawn to
/// the same point.
pub proof fn lemma_one_off_panel_is_isolated(frame: Seq<Color>, pixels: Seq<Pixel>, k: int)
    requires
        frame.len() == PIXELS,
        0 <= k < pixels.len(),
        !on_panel(pixels[k].0),
        forall|i: int| 0 <= i < pixels.len() && i != k ==> on_panel(#[trigger] pixels[i].0),
    ensures
        verdicts(pixels).len() == pixels.len(),
        forall|i: int|
            0 <= i < pixels.len() ==> #[trigger] verdicts(pixels)[i] == (if i == k {
                Err::<(), DrawError>(DrawError::OutOfBounds)
            } else {
                Ok(())
            }),
        drawn_all(frame, pixels) == drawn_all(frame, pixels.remove(k)),
        forall|i: int|
            0 <= i < pixels.len() && i != k && #[trigger] is_last_write(pixels, i) ==> drawn_all(
                frame,
                pixels,
            )[led_of(pixels[i].0)] == pixels[i].1,
{
    lemma_drawn_all_skips_off_panel(frame, pixels, k);
    assert forall|i: int|
        0 <= i < pixels.len() && i != k && #[trigger] is_last_write(pixels, i) implies drawn_all(
        frame,
        pixels,
    )[led_of(pixels[i].0)] == pixels[i].1 by {
        lemma_drawn_all_shows_last_write(frame, pixels, i);
    }
}

} // verus!
