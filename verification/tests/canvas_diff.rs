use ipcanvas::canvas::colors;
use ipcanvas::canvas::diff::CanvasDiff;
use ipcanvas::canvas::{Canvas, Pixel};

#[test]
fn diff_lists_changed_cells_in_row_major_order() {
    let initial = Canvas::new(2, 2);
    let mut canvas = initial.clone();
    // Written out of order on purpose: the diff is ordered by cell.
    canvas.set_pixel(0, 1, colors::blue()).unwrap();
    canvas.set_pixel(1, 0, colors::green()).unwrap();
    canvas.set_pixel(0, 0, colors::red()).unwrap();

    let diff = initial.diff(&canvas);
    assert!(!diff.is_empty());
    assert_eq!(
        diff.changed_pixels().to_vec(),
        vec![
            Pixel {
                x: 0,
                y: 0,
                color: colors::red()
            },
            Pixel {
                x: 1,
                y: 0,
                color: colors::green()
            },
            Pixel {
                x: 0,
                y: 1,
                color: colors::blue()
            },
        ]
    );

    let snapshot = canvas.clone();
    canvas.set_pixel(1, 1, colors::white()).unwrap();
    let diff = snapshot.diff(&canvas);
    assert!(diff.is_empty());
    assert_eq!(diff.changed_pixels().len(), 0);
}

#[test]
fn diff_of_a_canvas_with_itself_is_empty() {
    let mut canvas = Canvas::new(5, 4);
    canvas.set_pixel(3, 3, colors::black()).unwrap();
    assert!(canvas.diff(&canvas).is_empty());
    assert!(canvas.diff(&canvas.clone()).is_empty());
}

#[test]
fn diff_carries_the_new_color() {
    let mut old = Canvas::new(3, 1);
    old.set_pixel(1, 0, colors::red()).unwrap();
    let mut new = old.clone();
    new.set_pixel(1, 0, colors::white()).unwrap();
    new.set_pixel(2, 0, colors::red()).unwrap();

    let forward = old.diff(&new);
    assert_eq!(
        forward.changed_pixels().to_vec(),
        vec![
            Pixel {
                x: 1,
                y: 0,
                color: colors::white()
            },
            Pixel {
                x: 2,
                y: 0,
                color: colors::red()
            },
        ]
    );
    let backward = new.diff(&old);
    assert_eq!(
        backward.changed_pixels().to_vec(),
        vec![
            Pixel {
                x: 1,
                y: 0,
                color: colors::red()
            },
            Pixel {
                x: 2,
                y: 0,
                color: colors::white()
            },
        ]
    );
}

#[test]
fn applying_a_diff_to_the_old_canvas_gives_the_new_one() {
    let old = Canvas::new(7, 5);
    let mut new = old.clone();
    new.set_pixel(6, 4, colors::cyan()).unwrap();
    new.set_pixel(0, 0, colors::yellow()).unwrap();
    new.set_pixel(3, 2, colors::magenta()).unwrap();
    let mut replayed = old.clone();
    for pixel in old.diff(&new).changed_pixels() {
        replayed.set_pixel(pixel.x, pixel.y, pixel.color).unwrap();
    }
    assert_eq!(replayed, new);
}

#[test]
fn new_diff_is_empty() {
    let diff = CanvasDiff::new();
    assert!(diff.is_empty());
    assert_eq!(diff.changed_pixels().len(), 0);
    assert_eq!(diff.to_bytes(), Vec::<u8>::new());
}

#[test]
fn diff_payload_takes_seven_bytes_per_pixel() {
    let old = Canvas::new(300, 300);
    let mut new = old.clone();
    new.set_pixel(258, 1, colors::red()).unwrap();
    new.set_pixel(2, 259, colors::cyan()).unwrap();
    let payload = old.diff(&new).to_bytes();
    assert_eq!(
        payload,
        vec![
            0x01, 0x02, 0x00, 0x01, 255, 0, 0, // (258, 1) red
            0x00, 0x02, 0x01, 0x03, 0, 255, 255, // (2, 259) cyan
        ]
    );
}
