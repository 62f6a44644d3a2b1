use node_image::fft::shift_fft;
use node_image::image::{luma_to_slice, ColorImage, ImageSlice, Rgb, SliceColor};
use node_image::transform::{
    channels_to_image, flip_image, image_to_channels, image_to_gray, invert_colors_image,
    merged_size, rotate_image,
};
use rustfft::num_complex::Complex;
use rustfft::FftPlanner;

fn px(r: u8, g: u8, b: u8) -> Rgb {
    Rgb { r, g, b }
}

/// A 3 by 2 image whose pixels are all different.
fn sample_image() -> ColorImage {
    ColorImage {
        size: (3, 2),
        pixels: vec![
            px(1, 2, 3),
            px(4, 5, 6),
            px(7, 8, 9),
            px(10, 11, 12),
            px(13, 14, 15),
            px(16, 17, 18),
        ],
    }
}

#[test]
fn new_slice_is_zero_filled() {
    let s = ImageSlice::new(SliceColor::Green, (3, 2));
    assert_eq!(s.color, SliceColor::Green);
    assert_eq!(s.size, (3, 2));
    assert_eq!(s.pixels, vec![0u8; 6]);
}

#[test]
fn new_image_is_filled_with_color() {
    let i = ColorImage::new((2, 2), px(9, 8, 7));
    assert_eq!(i.pixels, vec![px(9, 8, 7); 4]);
}

#[test]
fn slice_color_default_is_blue() {
    assert_eq!(SliceColor::default(), SliceColor::Blue);
}

#[test]
fn red_slice_expands_into_red_channel_only() {
    let s = ImageSlice { color: SliceColor::Red, size: (2, 2), pixels: vec![0, 50, 100, 255] };
    let i = s.to_image();
    assert_eq!(i.size, (2, 2));
    for (k, p) in i.pixels.iter().enumerate() {
        assert_eq!(p.r, s.pixels[k]);
        assert_eq!(p.g, 0);
        assert_eq!(p.b, 0);
    }
}

#[test]
fn gray_slice_expands_into_all_channels() {
    let s = ImageSlice { color: SliceColor::Gray, size: (1, 1), pixels: vec![77] };
    assert_eq!(s.to_image().pixels, vec![px(77, 77, 77)]);
}

#[test]
fn slice_from_image_takes_channel() {
    let i = sample_image();
    let g = ImageSlice::from_image(&i, SliceColor::Green);
    assert_eq!(g.pixels, vec![2, 5, 8, 11, 14, 17]);
    let gray = ImageSlice::from_image(&i, SliceColor::Gray);
    assert_eq!(gray.pixels, vec![1, 4, 7, 10, 13, 16]);
    assert_eq!(gray.size, (3, 2));
}

#[test]
fn luma_bytes_make_gray_slice() {
    let s = luma_to_slice((2, 1), vec![3, 4]);
    assert_eq!(s.color, SliceColor::Gray);
    assert_eq!(s.size, (2, 1));
    assert_eq!(s.pixels, vec![3, 4]);
}

#[test]
fn gray_conversion_uses_srgb_luma() {
    let i = ColorImage {
        size: (2, 2),
        pixels: vec![px(255, 0, 0), px(0, 255, 0), px(0, 0, 255), px(255, 255, 255)],
    };
    let g = image_to_gray(&i);
    assert_eq!(g.color, SliceColor::Gray);
    assert_eq!(g.size, (2, 2));
    assert_eq!(g.pixels, vec![54, 182, 18, 255]);
}

#[test]
fn split_gives_three_channels() {
    let (r, g, b) = image_to_channels(&sample_image());
    assert_eq!(r.color, SliceColor::Red);
    assert_eq!(g.color, SliceColor::Green);
    assert_eq!(b.color, SliceColor::Blue);
    assert_eq!(r.pixels, vec![1, 4, 7, 10, 13, 16]);
    assert_eq!(b.pixels, vec![3, 6, 9, 12, 15, 18]);
}

#[test]
fn split_then_merge_round_trips() {
    let i = sample_image();
    let (r, g, b) = image_to_channels(&i);
    let m = channels_to_image(&r, &g, &b);
    assert_eq!(m, i);
}

#[test]
fn merge_takes_largest_size_and_zero_fills() {
    let r = ImageSlice { color: SliceColor::Red, size: (2, 1), pixels: vec![1, 2] };
    let g = ImageSlice { color: SliceColor::Green, size: (1, 2), pixels: vec![3, 4] };
    let b = ImageSlice { color: SliceColor::Blue, size: (1, 1), pixels: vec![5] };
    assert_eq!(merged_size(&r, &g, &b), Some((2, 2)));
    let m = channels_to_image(&r, &g, &b);
    assert_eq!(m.size, (2, 2));
    assert_eq!(m.pixels, vec![px(1, 3, 5), px(2, 4, 0), px(0, 0, 0), px(0, 0, 0)]);
}

#[test]
fn merged_size_reports_overflow() {
    let r = ImageSlice { color: SliceColor::Red, size: (usize::MAX, 0), pixels: vec![] };
    let g = ImageSlice { color: SliceColor::Green, size: (0, 2), pixels: vec![] };
    let b = ImageSlice { color: SliceColor::Blue, size: (0, 0), pixels: vec![] };
    assert_eq!(merged_size(&r, &g, &b), None);
}

#[test]
fn invert_subtracts_from_255() {
    let i = ColorImage { size: (2, 1), pixels: vec![px(0, 100, 255), px(1, 2, 3)] };
    let v = invert_colors_image(&i);
    assert_eq!(v.size, (2, 1));
    assert_eq!(v.pixels, vec![px(255, 155, 0), px(254, 253, 252)]);
}

#[test]
fn rotate_by_zero_is_identity() {
    let i = sample_image();
    assert_eq!(rotate_image(&i, 0), i);
    assert_eq!(rotate_image(&i, 4), i);
    assert_eq!(rotate_image(&i, -8), i);
}

#[test]
fn rotate_quarter_turn_clockwise() {
    // 1 2 3        4 1
    // 4 5 6   ->   5 2
    //              6 3
    let i = sample_image();
    let r = rotate_image(&i, 1);
    assert_eq!(r.size, (2, 3));
    assert_eq!(
        r.pixels,
        vec![px(10, 11, 12), px(1, 2, 3), px(13, 14, 15), px(4, 5, 6), px(16, 17, 18), px(7, 8, 9)]
    );
    assert_eq!(rotate_image(&i, -3), r);
}

#[test]
fn rotate_half_turn_reverses_pixels() {
    let i = sample_image();
    let r = rotate_image(&i, 2);
    assert_eq!(r.size, (3, 2));
    let mut rev = i.pixels.clone();
    rev.reverse();
    assert_eq!(r.pixels, rev);
}

#[test]
fn rotate_three_quarters_is_counter_clockwise() {
    let i = sample_image();
    let r = rotate_image(&i, -1);
    assert_eq!(r.size, (2, 3));
    assert_eq!(
        r.pixels,
        vec![px(7, 8, 9), px(16, 17, 18), px(4, 5, 6), px(13, 14, 15), px(1, 2, 3), px(10, 11, 12)]
    );
}

#[test]
fn flip_horizontal_reverses_columns() {
    let i = sample_image();
    let f = flip_image(&i, true, false);
    assert_eq!(f.size, i.size);
    assert_eq!(
        f.pixels,
        vec![px(7, 8, 9), px(4, 5, 6), px(1, 2, 3), px(16, 17, 18), px(13, 14, 15), px(10, 11, 12)]
    );
}

#[test]
fn flip_vertical_reverses_rows() {
    let i = sample_image();
    let f = flip_image(&i, false, true);
    assert_eq!(f.size, i.size);
    assert_eq!(
        f.pixels,
        vec![px(10, 11, 12), px(13, 14, 15), px(16, 17, 18), px(1, 2, 3), px(4, 5, 6), px(7, 8, 9)]
    );
    assert_eq!(flip_image(&i, false, false), i);
}

#[test]
fn shift_moves_corner_to_split_point() {
    let mut b: Vec<u8> = vec![0; 16];
    b[0] = 1;
    shift_fft(&mut b, 4, 4);
    for (k, v) in b.iter().enumerate() {
        assert_eq!(*v, if k == 10 { 1 } else { 0 });
    }
}

#[test]
fn shift_on_odd_sizes_keeps_middle() {
    // 3 by 3: split points at 2; (0,0) <-> (2,2), (2,0) <-> (0,2), middle row and column stay.
    let mut b: Vec<u8> = (0..9).collect();
    shift_fft(&mut b, 3, 3);
    assert_eq!(b, vec![8, 1, 6, 3, 4, 5, 2, 7, 0]);
}

#[test]
fn shift_on_rectangle() {
    // 4 wide, 2 high: quadrants are 2 by 1.
    let mut b: Vec<u8> = (0..8).collect();
    shift_fft(&mut b, 4, 2);
    assert_eq!(b, vec![6, 7, 4, 5, 2, 3, 0, 1]);
}

/// The full transform on a uniform 4 by 4 slice: rows, columns, scaling by
/// the root of the size, centering, then the real part times 255.
#[test]
fn fourier_of_uniform_slice_is_centered() {
    let w = 4;
    let h = 4;
    let mut buf: Vec<Complex<f32>> = vec![Complex::new(200.0 / 255.0, 0.0); w * h];
    let mut planner = FftPlanner::<f32>::new();
    let row = planner.plan_fft_forward(w);
    for y in 0..h {
        row.process(&mut buf[y * w..(y + 1) * w]);
    }
    let col = planner.plan_fft_forward(h);
    for x in 0..w {
        let mut c: Vec<Complex<f32>> = (0..h).map(|y| buf[y * w + x]).collect();
        col.process(&mut c);
        for y in 0..h {
            buf[y * w + x] = c[y];
        }
    }
    let factor = ((w * h) as f32).sqrt();
    for v in buf.iter_mut() {
        *v = *v / factor;
    }
    shift_fft(&mut buf, w, h);
    let out: Vec<u8> = buf.iter().map(|c| (c.re * 255.0).floor() as u8).collect();
    for (k, v) in out.iter().enumerate() {
        if k == 2 * w + 2 {
            assert!(*v > 0);
        } else {
            assert_eq!(*v, 0);
        }
    }
}

#[test]
fn empty_and_single_pixel_images() {
    let empty = ColorImage { size: (0, 3), pixels: vec![] };
    assert_eq!(flip_image(&empty, true, true), empty);
    let r = rotate_image(&empty, 1);
    assert_eq!(r.size, (3, 0));
    assert!(r.pixels.is_empty());
    let one = ColorImage { size: (1, 1), pixels: vec![px(4, 5, 6)] };
    assert_eq!(rotate_image(&one, 3), one);
    assert_eq!(invert_colors_image(&empty), empty);
    let g = image_to_gray(&empty);
    assert_eq!(g.size, (0, 3));
    assert!(g.pixels.is_empty());
}

#[test]
fn shift_leaves_tiny_buffers_alone() {
    let mut one: Vec<u8> = vec![7];
    shift_fft(&mut one, 1, 1);
    assert_eq!(one, vec![7]);
    let mut none: Vec<u8> = vec![];
    shift_fft(&mut none, 0, 0);
    assert!(none.is_empty());
    let mut row: Vec<u8> = vec![1, 2, 3, 4];
    shift_fft(&mut row, 4, 1);
    assert_eq!(row, vec![1, 2, 3, 4]);
}
