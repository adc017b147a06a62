use led_matrix::{Color, DrawError, LedDisplay, Pixel, Point, Size, PIXELS, SIDE};

const BLACK: Color = Color { r: 0, g: 0, b: 0 };
const WHITE: Color = Color { r: 255, g: 255, b: 255 };
const RED: Color = Color { r: 255, g: 0, b: 0 };
const GREEN: Color = Color { r: 0, g: 255, b: 0 };
const BLUE: Color = Color { r: 0, g: 0, b: 255 };

fn count_of(display: &LedDisplay, color: Color) -> usize {
    display.frame().iter().filter(|&&led| led == color).count()
}

#[test]
fn new_display_is_dark() {
    let display = LedDisplay::new();
    assert_eq!(display.frame().len(), 256);
    assert!(display.frame().iter().all(|&led| led == BLACK));
    assert_eq!(Color::default(), BLACK);
}

#[test]
fn size_is_sixteen_by_sixteen() {
    let mut display = LedDisplay::new();
    assert_eq!(display.size(), Size::new(16, 16));
    display.clear(RED);
    assert_eq!(display.size(), Size { width: 16, height: 16 });
    assert_eq!(SIDE, 16);
    assert_eq!(PIXELS, 256);
}

#[test]
fn clear_sets_every_led() {
    let mut display = LedDisplay::new();
    display.clear(BLUE);
    assert_eq!(count_of(&display, BLUE), 256);
}

#[test]
fn clear_twice_is_clear_once() {
    let mut once = LedDisplay::new();
    once.draw_pixel(Point::new(3, 3), RED).unwrap();
    once.clear(GREEN);

    let mut twice = LedDisplay::new();
    twice.draw_pixel(Point::new(3, 3), RED).unwrap();
    twice.clear(GREEN);
    twice.clear(GREEN);

    assert_eq!(once.frame(), twice.frame());
    assert_eq!(count_of(&twice, GREEN), 256);
}

#[test]
fn clear_overwrites_what_was_drawn() {
    let mut display = LedDisplay::new();
    display.draw_pixel(Point::new(0, 0), RED).unwrap();
    display.draw_pixel(Point::new(15, 15), GREEN).unwrap();
    display.clear(WHITE);
    assert_eq!(count_of(&display, WHITE), 256);
}

#[test]
fn index_top_left_is_the_wiring_of_sixteen() {
    let display = LedDisplay::new();
    assert_eq!(display.index_top_left(Point::new(0, 0)), Ok(240));
    assert_eq!(display.index_top_left(Point::new(15, 15)), Ok(0));
    assert_eq!(display.index_top_left(Point::new(5, 14)), Ok(21));
    assert_eq!(display.index_top_left(Point::new(5, 15)), Ok(10));
    assert_eq!(display.index_top_left(Point::new(16, 0)), Err(DrawError::OutOfBounds));
    assert_eq!(display.index_top_left(Point::new(0, -1)), Err(DrawError::OutOfBounds));
}

#[test]
fn drawn_pixel_is_read_back_at_its_index() {
    for y in 0..16 {
        for x in 0..16 {
            let mut display = LedDisplay::new();
            let color = Color::new(x as u8 + 1, y as u8 + 1, 7);
            assert_eq!(display.draw_pixel(Point::new(x, y), color), Ok(()));
            let index = display.index_top_left(Point::new(x, y)).unwrap();
            assert_eq!(display.frame()[index], color);
            assert_eq!(count_of(&display, BLACK), 255);
        }
    }
}

#[test]
fn drawing_changes_one_led_only() {
    let mut display = LedDisplay::new();
    display.clear(BLUE);
    display.draw_pixel(Point::new(4, 9), RED).unwrap();
    let index = (15 - 9) * 16 + (15 - 4);
    for (led, &color) in display.frame().iter().enumerate() {
        if led == index {
            assert_eq!(color, RED);
        } else {
            assert_eq!(color, BLUE);
        }
    }
}

#[test]
fn later_write_to_a_point_wins() {
    let mut display = LedDisplay::new();
    display.draw_pixel(Point::new(2, 2), RED).unwrap();
    display.draw_pixel(Point::new(2, 2), GREEN).unwrap();
    let index = display.index_top_left(Point::new(2, 2)).unwrap();
    assert_eq!(display.frame()[index], GREEN);
    assert_eq!(count_of(&display, RED), 0);
}

#[test]
fn rejected_pixel_leaves_the_frame_alone() {
    let mut display = LedDisplay::new();
    display.clear(BLUE);
    display.draw_pixel(Point::new(1, 1), RED).unwrap();
    let before = *display.frame();
    for point in [
        Point::new(-1, 0),
        Point::new(0, -1),
        Point::new(16, 3),
        Point::new(3, 16),
        Point::new(i32::MAX, i32::MAX),
        Point::new(i32::MIN, 0),
    ] {
        assert_eq!(display.draw_pixel(point, WHITE), Err(DrawError::OutOfBounds));
        assert_eq!(*display.frame(), before);
    }
}

#[test]
fn red_at_the_origin_is_the_first_led_of_the_last_row() {
    let mut display = LedDisplay::new();
    assert_eq!(display.draw_pixel(Point::new(0, 0), RED), Ok(()));
    let sent: Vec<Color> = display.frame().iter().copied().collect();
    assert_eq!(sent.len(), 256);
    assert_eq!(sent[15 * 16], RED);
    assert_eq!(sent[240], RED);
    assert_eq!(sent.iter().filter(|&&led| led == RED).count(), 1);
}

#[test]
fn green_in_the_far_corner_is_the_first_led() {
    let mut display = LedDisplay::new();
    assert_eq!(display.draw_pixel(Point::new(15, 15), GREEN), Ok(()));
    let sent: Vec<Color> = display.frame().iter().copied().collect();
    assert_eq!(sent[0], GREEN);
    assert_eq!(sent.iter().filter(|&&led| led == GREEN).count(), 1);
}

#[test]
fn white_beside_a_black_panel_is_not_sent() {
    let mut display = LedDisplay::new();
    display.clear(BLACK);
    assert_eq!(display.draw_pixel(Point::new(20, 5), WHITE), Err(DrawError::OutOfBounds));
    let sent: Vec<Color> = display.frame().iter().copied().collect();
    assert_eq!(sent.len(), 256);
    assert!(sent.iter().all(|&led| led == BLACK));
}

#[test]
fn run_of_pixels_on_the_panel() {
    let mut display = LedDisplay::new();
    let pixels = [
        Pixel(Point::new(0, 0), RED),
        Pixel(Point::new(1, 0), GREEN),
        Pixel(Point::new(15, 15), BLUE),
    ];
    assert_eq!(display.draw_iter(&pixels), vec![Ok(()), Ok(()), Ok(())]);
    assert_eq!(display.frame()[240], RED);
    assert_eq!(display.frame()[241], GREEN);
    assert_eq!(display.frame()[0], BLUE);
    assert_eq!(count_of(&display, BLACK), 253);
}

#[test]
fn empty_run_draws_nothing() {
    let mut display = LedDisplay::new();
    display.clear(BLUE);
    assert_eq!(display.draw_iter(&[]), vec![]);
    assert_eq!(count_of(&display, BLUE), 256);
}

#[test]
fn one_pixel_beside_the_panel_does_not_stop_the_rest() {
    let mut display = LedDisplay::new();
    let pixels = [
        Pixel(Point::new(0, 0), RED),
        Pixel(Point::new(20, 5), WHITE),
        Pixel(Point::new(1, 0), GREEN),
        Pixel(Point::new(15, 15), BLUE),
    ];
    assert_eq!(
        display.draw_iter(&pixels),
        vec![Ok(()), Err(DrawError::OutOfBounds), Ok(()), Ok(())]
    );
    assert_eq!(display.frame()[240], RED);
    assert_eq!(display.frame()[241], GREEN);
    assert_eq!(display.frame()[0], BLUE);
    assert_eq!(count_of(&display, WHITE), 0);
    assert_eq!(count_of(&display, BLACK), 253);

    let mut without = LedDisplay::new();
    let others = [pixels[0], pixels[2], pixels[3]];
    assert_eq!(without.draw_iter(&others), vec![Ok(()), Ok(()), Ok(())]);
    assert_eq!(without.frame(), display.frame());
}

#[test]
fn run_reports_as_single_writes_do() {
    let pixels = [
        Pixel(Point::new(0, 0), RED),
        Pixel(Point::new(-3, 5), WHITE),
        Pixel(Point::new(1, 0), GREEN),
        Pixel(Point::new(16, 16), BLUE),
    ];
    let mut single = LedDisplay::new();
    let reports: Vec<Result<(), DrawError>> = pixels
        .iter()
        .map(|&Pixel(point, color)| single.draw_pixel(point, color))
        .collect();
    let mut run = LedDisplay::new();
    assert_eq!(run.draw_iter(&pixels), reports);
    assert_eq!(
        reports,
        vec![Ok(()), Err(DrawError::OutOfBounds), Ok(()), Err(DrawError::OutOfBounds)]
    );
    assert_eq!(run.frame(), single.frame());
}

#[test]
fn last_pixel_beside_the_panel_is_reported() {
    let mut display = LedDisplay::new();
    let pixels = [Pixel(Point::new(5, 5), RED), Pixel(Point::new(5, 16), WHITE)];
    assert_eq!(display.draw_iter(&pixels), vec![Ok(()), Err(DrawError::OutOfBounds)]);
    assert_eq!(display.frame()[10 * 16 + 10], RED);
}

#[test]
fn run_draws_in_order() {
    let mut display = LedDisplay::new();
    let pixels = [
        Pixel(Point::new(7, 7), RED),
        Pixel(Point::new(7, 7), GREEN),
        Pixel(Point::new(8, 7), BLUE),
        Pixel(Point::new(7, 7), WHITE),
    ];
    assert!(display.draw_iter(&pixels).iter().all(|report| report.is_ok()));
    assert_eq!(display.frame()[8 * 16 + 8], WHITE);
    assert_eq!(display.frame()[8 * 16 + 7], BLUE);
}

#[test]
fn two_runs_are_one_run() {
    let first = [Pixel(Point::new(1, 2), RED), Pixel(Point::new(3, 4), GREEN)];
    let second = [Pixel(Point::new(1, 2), BLUE), Pixel(Point::new(9, 9), WHITE)];
    let mut apart = LedDisplay::new();
    let mut reports = apart.draw_iter(&first);
    reports.extend(apart.draw_iter(&second));
    let mut together = LedDisplay::new();
    let all: Vec<Pixel> = first.iter().chain(second.iter()).copied().collect();
    assert_eq!(together.draw_iter(&all), reports);
    assert_eq!(apart.frame(), together.frame());
}

#[test]
fn writes_show_at_once() {
    let mut display = LedDisplay::new();
    display.draw_pixel(Point::new(0, 15), RED).unwrap();
    assert_eq!(display.frame()[15], RED);
    display.draw_pixel(Point::new(0, 15), GREEN).unwrap();
    assert_eq!(display.frame()[15], GREEN);
    display.clear(BLACK);
    assert_eq!(display.frame()[15], BLACK);
}
