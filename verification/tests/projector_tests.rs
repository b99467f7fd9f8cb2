use ulam_spiral::projector::{clip_pixel, PixelEvent};
use ulam_spiral::ulam_spiral::{UlamSpiral, UlamSpiralFormat};

fn event(x: usize, y: usize) -> PixelEvent {
    PixelEvent { x, y, mark: true }
}

#[test]
fn identity_projection_marks_prime_cells_at_their_coordinates() {
    // scale = 1 and a canvas as wide as the grid: cell coordinates pass
    // through unchanged. Grid is [5,4,3 / 6,1,2 / 7,8,9]; primes are
    // 5, 3, 2, 7 at cells (0,0), (2,0), (2,1), (0,2).
    let s = UlamSpiral::new(3, UlamSpiralFormat::Square).unwrap_or_else(|_| panic!());
    let events = s.project_square(3, 1);
    assert_eq!(
        events,
        vec![event(0, 0), event(2, 0), event(2, 1), event(0, 2)]
    );
}

#[test]
fn scaled_projection_divides_centered_coordinates() {
    // image_width = 4, scale = 2: offset = 4*2/2 - 3/2 = 3, so a cell
    // (cx, cy) lands on ((3+cx)/2, (3+cy)/2), truncated.
    let s = UlamSpiral::new(3, UlamSpiralFormat::Square).unwrap_or_else(|_| panic!());
    let events = s.project_square(4, 2);
    assert_eq!(
        events,
        vec![event(1, 1), event(2, 1), event(2, 2), event(1, 2)]
    );
}

#[test]
fn projection_is_idempotent() {
    let s = UlamSpiral::new(9, UlamSpiralFormat::Square).unwrap_or_else(|_| panic!());
    let first = s.project_square(9, 1);
    let second = s.project_square(9, 1);
    assert_eq!(first, second);
    let third = s.project_square(5, 2);
    let fourth = s.project_square(5, 2);
    assert_eq!(third, fourth);
}

#[test]
fn off_canvas_cells_emit_nothing() {
    // A 1-pixel canvas over a 5-wide grid: offset = 1/2 - 5/2 = -2, so only
    // the cell at (2, 2) maps to pixel (0, 0). That cell holds 1, which is
    // not prime, so no event survives the boundary rule.
    let s = UlamSpiral::new(5, UlamSpiralFormat::Square).unwrap_or_else(|_| panic!());
    let events = s.project_square(1, 1);
    assert!(events.is_empty());
}

#[test]
fn all_emitted_events_lie_on_the_canvas() {
    let s = UlamSpiral::new(11, UlamSpiralFormat::Square).unwrap_or_else(|_| panic!());
    for (iw, sc) in [(3usize, 1usize), (5, 1), (11, 1), (4, 2), (7, 3), (30, 1)] {
        let events = s.project_square(iw, sc);
        for e in events {
            assert!(e.x < iw && e.y < iw);
            assert!(e.mark);
        }
    }
}

#[test]
fn truncating_division_rounds_toward_zero() {
    // image_width = 1, scale = 2 over a 5-wide grid: offset = 1 - 2 = -1,
    // so column 0 computes (-1)/2. Truncation gives 0 (on the canvas);
    // floor division would give -1 (discarded). Cells with both coordinates
    // in {0, 1, 2} land on pixel (0, 0); the primes among their values are
    // 17 at (0,0), 5 at (1,1) and 19 at (0,2), so three marks must appear.
    // Floor division would keep only the one in column 1.
    let s = UlamSpiral::new(5, UlamSpiralFormat::Square).unwrap_or_else(|_| panic!());
    let events = s.project_square(1, 2);
    assert_eq!(events, vec![event(0, 0), event(0, 0), event(0, 0)]);
}

#[test]
fn clip_keeps_only_canvas_coordinates() {
    assert_eq!(clip_pixel(0, 0, 10), Some(event(0, 0)));
    assert_eq!(clip_pixel(9, 9, 10), Some(event(9, 9)));
    assert_eq!(clip_pixel(-1, 5, 10), None);
    assert_eq!(clip_pixel(5, -1, 10), None);
    assert_eq!(clip_pixel(10, 5, 10), None);
    assert_eq!(clip_pixel(5, 10, 10), None);
    assert_eq!(clip_pixel(0, 0, 0), None);
}
