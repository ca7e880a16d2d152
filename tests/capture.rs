use xcap::{
    render, CapturedImage, DisplayOptions, Frame, Monitor, PixelFormat, RawOutput, Rect, Rgba8,
    Rotation, XCapError,
};


/// An RGBA frame whose pixel (x, y) has red channel `10 * y + x`.
fn rgba_frame(width: u32, height: u32, stride: usize) -> Frame {
    let mut data = vec![0u8; stride * height as usize];
    for y in 0..height as usize {
        for x in 0..width as usize {
            let v = (10 * y + x) as u8;
            let o = y * stride + 4 * x;
            data[o] = v;
            data[o + 1] = v + 1;
            data[o + 2] = v + 2;
            data[o + 3] = 255;
        }
    }
    Frame { width, height, stride, format: PixelFormat::Rgba, data }
}

fn reds(img: &CapturedImage) -> Vec<Vec<u8>> {
    (0..img.height())
        .map(|y| (0..img.width()).map(|x| img.pixel(x, y).unwrap().r).collect())
        .collect()
}

fn output(id: u32, width: u32, height: u32, rotation_degrees: i32) -> RawOutput {
    RawOutput {
        id,
        name: String::from("panel"),
        x: 0,
        y: 0,
        width,
        height,
        rotation_degrees,
        scale_factor_permille: 1000,
        frequency_millihertz: 60000,
        is_primary: true,
    }
}

#[test]
fn bgra_is_reordered_to_rgba() {
    let f = Frame {
        width: 1,
        height: 1,
        stride: 4,
        format: PixelFormat::Bgra,
        data: vec![1, 2, 3, 4],
    };
    let img = CapturedImage::from_frame(&f).unwrap();
    assert_eq!(img.pixel(0, 0), Some(Rgba8 { r: 3, g: 2, b: 1, a: 4 }));
    assert_eq!(img.to_rgba_bytes(), vec![3, 2, 1, 4]);
}

#[test]
fn bgrx_pixels_are_opaque() {
    let f = Frame {
        width: 2,
        height: 1,
        stride: 8,
        format: PixelFormat::Bgrx,
        data: vec![1, 2, 3, 0, 5, 6, 7, 9],
    };
    let img = CapturedImage::from_frame(&f).unwrap();
    assert_eq!(img.to_rgba_bytes(), vec![3, 2, 1, 255, 7, 6, 5, 255]);
}

#[test]
fn row_padding_is_dropped() {
    let f = rgba_frame(2, 2, 12);
    let img = CapturedImage::from_frame(&f).unwrap();
    assert_eq!((img.width(), img.height()), (2, 2));
    assert_eq!(reds(&img), vec![vec![0, 1], vec![10, 11]]);
    assert_eq!(img.to_rgba_bytes().len(), 16);
    assert_eq!(img.pixel(2, 0), None);
    assert_eq!(img.pixel(0, 2), None);
}

#[test]
fn unknown_format_is_unsupported() {
    let mut f = rgba_frame(2, 2, 8);
    f.format = PixelFormat::Other(17);
    assert_eq!(CapturedImage::from_frame(&f).unwrap_err(), XCapError::UnsupportedFormat);
}

#[test]
fn short_buffer_or_stride_is_unsupported() {
    let mut f = rgba_frame(2, 2, 8);
    f.data.pop();
    assert_eq!(CapturedImage::from_frame(&f).unwrap_err(), XCapError::UnsupportedFormat);
    let mut g = rgba_frame(2, 2, 8);
    g.stride = 7;
    assert_eq!(render(&g, Rotation::Deg0, &None).unwrap_err(), XCapError::UnsupportedFormat);
}

#[test]
fn quarter_turn_is_undone_and_swaps_size() {
    // Raw frame 3 wide, 2 high: reds [[0,1,2],[10,11,12]].
    let f = rgba_frame(3, 2, 12);
    let up = render(&f, Rotation::Deg90, &None).unwrap();
    assert_eq!((up.width(), up.height()), (2, 3));
    assert_eq!(reds(&up), vec![vec![2, 12], vec![1, 11], vec![0, 10]]);
    let back = render(&f, Rotation::Deg270, &None).unwrap();
    assert_eq!((back.width(), back.height()), (2, 3));
    assert_eq!(reds(&back), vec![vec![10, 0], vec![11, 1], vec![12, 2]]);
}

#[test]
fn half_turn_keeps_size() {
    let f = rgba_frame(3, 2, 12);
    let up = render(&f, Rotation::Deg180, &None).unwrap();
    assert_eq!(reds(&up), vec![vec![12, 11, 10], vec![2, 1, 0]]);
}

#[test]
fn crop_is_clipped_to_the_picture() {
    let f = rgba_frame(3, 2, 12);
    let img = CapturedImage::from_frame(&f).unwrap();
    let c = img.crop(Rect { x: 1, y: 1, width: 10, height: 10 });
    assert_eq!(reds(&c), vec![vec![11, 12]]);
    let outside = img.crop(Rect { x: 5, y: 0, width: 2, height: 2 });
    assert_eq!((outside.width(), outside.height()), (0, 2));
    let huge = img.crop(Rect { x: u32::MAX, y: u32::MAX, width: u32::MAX, height: u32::MAX });
    assert_eq!((huge.width(), huge.height()), (0, 0));
}

#[test]
fn resize_samples_nearest_pixels() {
    let f = rgba_frame(2, 2, 8);
    let img = CapturedImage::from_frame(&f).unwrap();
    let big = img.resize(4, 2);
    assert_eq!(reds(&big), vec![vec![0, 0, 1, 1], vec![10, 10, 11, 11]]);
    let small = img.resize(1, 1);
    assert_eq!(reds(&small), vec![vec![0]]);
    let empty = img.crop(Rect { x: 0, y: 0, width: 0, height: 2 }).resize(5, 5);
    assert_eq!((empty.width(), empty.height()), (0, 2));
}

#[test]
fn options_crop_then_resize() {
    let f = rgba_frame(3, 2, 12);
    let opts = Some(DisplayOptions {
        crop_region: Some(Rect { x: 1, y: 0, width: 2, height: 1 }),
        output_size: Some((4, 1)),
    });
    let img = render(&f, Rotation::Deg0, &opts).unwrap();
    assert_eq!(reds(&img), vec![vec![1, 1, 2, 2]]);
}

#[test]
fn packed_bytes_follow_rows() {
    let img = CapturedImage::from_frame(&rgba_frame(2, 1, 8)).unwrap();
    assert_eq!(img.to_rgba_bytes(), vec![0, 1, 2, 255, 1, 2, 3, 255]);
}

#[test]
fn capture_of_an_unrotated_monitor_has_its_size() {
    let outs = vec![output(3, 4, 3, 0)];
    let m = Monitor::all(&outs).unwrap().remove(0);
    let img = m.capture_image(&outs, &rgba_frame(4, 3, 16), None).unwrap();
    assert_eq!((img.width(), img.height()), (m.width(), m.height()));
}

#[test]
fn capture_of_a_rotated_monitor_swaps_the_frame_size() {
    let outs = vec![output(3, 2, 3, 90)];
    let m = Monitor::all(&outs).unwrap().remove(0);
    let img = m.capture_image(&outs, &rgba_frame(3, 2, 12), None).unwrap();
    assert_eq!((img.width(), img.height()), (2, 3));
    assert_eq!(reds(&img), vec![vec![2, 12], vec![1, 11], vec![0, 10]]);
}

#[test]
fn repeated_capture_has_the_same_size() {
    let outs = vec![output(3, 3, 2, 0)];
    let m = Monitor::all(&outs).unwrap().remove(0);
    let a = m.capture_image(&outs, &rgba_frame(3, 2, 12), None).unwrap();
    let mut f = rgba_frame(3, 2, 12);
    f.data[0] = 99;
    let b = m.capture_image(&outs, &f, None).unwrap();
    assert_eq!((a.width(), a.height()), (b.width(), b.height()));
    assert_ne!(a.to_rgba_bytes(), b.to_rgba_bytes());
}

#[test]
fn moving_a_descriptor_does_not_change_its_capture() {
    let outs = vec![output(3, 3, 2, 0)];
    let mut m = Monitor::all(&outs).unwrap().remove(0);
    let before = m.capture_image(&outs, &rgba_frame(3, 2, 12), None).unwrap();
    m.set_x(500);
    m.set_y(-40);
    m.set_width(1);
    let after = m.capture_image(&outs, &rgba_frame(3, 2, 12), None).unwrap();
    assert_eq!(before.to_rgba_bytes(), after.to_rgba_bytes());
    assert_eq!((after.width(), after.height()), (3, 2));
}

#[test]
fn capture_uses_the_live_rotation() {
    let outs = vec![output(3, 3, 2, 0)];
    let m = Monitor::all(&outs).unwrap().remove(0);
    let turned = vec![output(3, 2, 3, 270)];
    let img = m.capture_image(&turned, &rgba_frame(3, 2, 12), None).unwrap();
    assert_eq!((img.width(), img.height()), (2, 3));
}

#[test]
fn capture_of_a_disconnected_monitor_fails() {
    let outs = vec![output(3, 3, 2, 0)];
    let m = Monitor::all(&outs).unwrap().remove(0);
    let now = vec![output(4, 3, 2, 0), output(3, 0, 0, 0)];
    let err = m.capture_image(&now, &rgba_frame(3, 2, 12), None).unwrap_err();
    assert_eq!(err, XCapError::MonitorGone);
}

#[test]
fn capture_of_an_unmappable_frame_fails() {
    let outs = vec![output(3, 3, 2, 0)];
    let m = Monitor::all(&outs).unwrap().remove(0);
    let mut f = rgba_frame(3, 2, 12);
    f.format = PixelFormat::Other(1);
    let err = m.capture_image(&outs, &f, None).unwrap_err();
    assert_eq!(err, XCapError::UnsupportedFormat);
}
