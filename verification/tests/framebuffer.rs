use raytracer::color::Color;
use raytracer::framebuffer::Framebuffer;
use raytracer::raytrace::{render_chunk, Chunk, TraceOptions};
use raytracer::scalar::Scalar;
use std::time::Duration;

fn scalar(value: f32) -> Scalar {
    Scalar::from_bits(value.to_bits()).expect("not a NaN")
}

fn number(scalar: Scalar) -> f32 {
    f32::from_bits(scalar.to_bits())
}

/// A color that tells which pixel it was made for.
fn tag(px: usize, py: usize) -> Color {
    Color::from_rgb(scalar(px as f32 / 256.0), scalar(py as f32 / 256.0), scalar(0.5))
}

/// Eight bits for each channel, rounded.
fn pack(color: &Color) -> [u8; 3] {
    [
        (number(color.r()) * 255.0).round() as u8,
        (number(color.g()) * 255.0).round() as u8,
        (number(color.b()) * 255.0).round() as u8,
    ]
}

fn where_from(color: &Color) -> (usize, usize) {
    ((number(color.r()) * 256.0) as usize, (number(color.g()) * 256.0) as usize)
}

fn chunk(options: &TraceOptions, x: usize, y: usize) -> Chunk {
    Chunk { x, y, duration: Duration::from_millis(3), pixels: render_chunk(options, x, y, &tag) }
}

const BLANK: (usize, usize) = (usize::MAX, usize::MAX);

fn blank(options: &TraceOptions) -> Framebuffer<(usize, usize)> {
    Framebuffer::new(options, BLANK)
}

#[test]
fn a_new_framebuffer_is_filled() {
    let options = TraceOptions::new(20, 11, 1, 1, 8).unwrap();
    let framebuffer = Framebuffer::new(&options, [32u8, 32, 32]);
    assert_eq!(framebuffer.width(), 20);
    assert_eq!(framebuffer.height(), 11);
    assert_eq!(framebuffer.chunk_size(), 8);
    assert_eq!(framebuffer.pixels().len(), 220);
    assert!(framebuffer.pixels().iter().all(|pixel| *pixel == [32, 32, 32]));
}

#[test]
fn a_framebuffer_for_an_empty_image_is_empty() {
    let options = TraceOptions::new(0, 7, 1, 1, 8).unwrap();
    let framebuffer = Framebuffer::new(&options, 0u8);
    assert!(framebuffer.pixels().is_empty());
}

#[test]
fn a_chunk_is_written_to_its_pixels_and_no_other() {
    let options = TraceOptions::new(20, 11, 1, 1, 8).unwrap();
    let mut framebuffer = blank(&options);
    framebuffer.write_chunk(&chunk(&options, 1, 0), &where_from);
    for py in 0..11 {
        for px in 0..20 {
            let pixel = framebuffer.pixels()[py * 20 + px];
            if (8..16).contains(&px) && py < 8 {
                assert_eq!(pixel, (px, py));
            } else {
                assert_eq!(pixel, BLANK);
            }
        }
    }
}

#[test]
fn places_outside_the_image_are_dropped() {
    let options = TraceOptions::new(20, 11, 1, 1, 8).unwrap();
    let mut framebuffer = blank(&options);
    framebuffer.write_chunk(&chunk(&options, 2, 1), &where_from);
    let mut written = 0;
    for py in 0..11 {
        for px in 0..20 {
            let pixel = framebuffer.pixels()[py * 20 + px];
            if px >= 16 && py >= 8 {
                assert_eq!(pixel, (px, py));
                written += 1;
            } else {
                assert_eq!(pixel, BLANK);
            }
        }
    }
    assert_eq!(written, 12);
    assert_eq!(framebuffer.pixels().len(), 220);
}

#[test]
fn a_chunk_outside_the_grid_changes_nothing() {
    let options = TraceOptions::new(20, 11, 1, 1, 8).unwrap();
    let mut framebuffer = blank(&options);
    for (x, y) in [(3, 0), (0, 2), (7, 7), (usize::MAX, 0), (0, usize::MAX), (usize::MAX / 8 + 1, 1)] {
        let stray = Chunk { x, y, duration: Duration::ZERO, pixels: vec![Color::white(); 64] };
        framebuffer.write_chunk(&stray, &where_from);
    }
    assert!(framebuffer.pixels().iter().all(|pixel| *pixel == BLANK));
}

#[test]
fn all_chunks_together_fill_the_image() {
    for (width, height, size) in [(20, 11, 8), (16, 16, 4), (7, 5, 3), (5, 5, 7), (33, 2, 16)] {
        let options = TraceOptions::new(width, height, 1, 1, size).unwrap();
        let mut framebuffer = blank(&options);
        for (x, y) in options.chunk_grid() {
            framebuffer.write_chunk(&chunk(&options, x, y), &where_from);
        }
        for py in 0..height {
            for px in 0..width {
                assert_eq!(framebuffer.pixels()[py * width + px], (px, py));
            }
        }
    }
}

#[test]
fn the_order_of_the_chunks_does_not_matter() {
    let options = TraceOptions::new(20, 11, 1, 1, 8).unwrap();
    let grid = options.chunk_grid();
    let mut forward = blank(&options);
    for (x, y) in grid.iter() {
        forward.write_chunk(&chunk(&options, *x, *y), &where_from);
    }
    let mut backward = blank(&options);
    for (x, y) in grid.iter().rev() {
        backward.write_chunk(&chunk(&options, *x, *y), &where_from);
    }
    let mut shuffled = blank(&options);
    for k in [4, 1, 5, 0, 3, 2] {
        shuffled.write_chunk(&chunk(&options, grid[k].0, grid[k].1), &where_from);
    }
    assert_eq!(forward.pixels(), backward.pixels());
    assert_eq!(forward.pixels(), shuffled.pixels());
}

#[test]
fn a_later_chunk_overwrites_an_earlier_one_at_the_same_place() {
    let options = TraceOptions::new(8, 8, 1, 1, 4).unwrap();
    let mut framebuffer = Framebuffer::new(&options, [0u8; 3]);
    let first = Chunk { x: 1, y: 1, duration: Duration::ZERO, pixels: vec![Color::white(); 16] };
    let second = Chunk { x: 1, y: 1, duration: Duration::ZERO, pixels: vec![Color::black(); 16] };
    framebuffer.write_chunk(&first, &pack);
    assert_eq!(framebuffer.pixels()[4 * 8 + 4], [255, 255, 255]);
    assert_eq!(framebuffer.pixels()[3 * 8 + 4], [0, 0, 0]);
    framebuffer.write_chunk(&second, &pack);
    assert_eq!(framebuffer.pixels()[4 * 8 + 4], [0, 0, 0]);
}

#[test]
fn colors_are_converted_on_the_way() {
    let options = TraceOptions::new(2, 2, 1, 1, 2).unwrap();
    let mut framebuffer = Framebuffer::new(&options, [9u8; 3]);
    let pixels = vec![
        Color::from_rgb(scalar(0.0), scalar(0.5), scalar(1.0)),
        Color::from_rgb(scalar(0.2), scalar(0.4), scalar(0.6)),
        Color::from_rgb(scalar(2.0), scalar(-1.0), scalar(0.999)),
        Color::from_rgb(scalar(0.001), scalar(0.002), scalar(0.003)),
    ];
    framebuffer.write_chunk(&Chunk { x: 0, y: 0, duration: Duration::ZERO, pixels }, &pack);
    assert_eq!(*framebuffer.pixels(), vec![[0, 128, 255], [51, 102, 153], [255, 0, 255], [0, 1, 1]]);
}
