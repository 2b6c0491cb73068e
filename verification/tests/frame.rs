use editty::ffmpeg::frame::fit_dims;

#[test]
fn fit_dims_preserves_aspect_and_is_even() {
    // 640x360 (16:9) into a 200x200 box -> width-bound, even dims.
    let (w, h) = fit_dims(640, 360, 200, 200);
    assert_eq!((w, h), (200, 112));
    assert_eq!(w % 2, 0);
    assert_eq!(h % 2, 0);
    // Never upscales beyond the source.
    assert_eq!(fit_dims(640, 360, 4000, 4000), (640, 360));
}

#[test]
fn fit_dims_height_bound_and_degenerate_boxes() {
    // 1920x1080 into 560x320: height-bound, 320 * 16/9 = 568.9 -> 569 -> 568.
    assert_eq!(fit_dims(1920, 1080, 560, 320), (560, 314));
    assert_eq!(fit_dims(1080, 1920, 560, 320), (180, 320));
    // Anything zero gives the smallest frame.
    assert_eq!(fit_dims(0, 360, 200, 200), (2, 2));
    assert_eq!(fit_dims(640, 360, 0, 200), (2, 2));
    // Odd sources are made even; tiny ones grow to two.
    assert_eq!(fit_dims(641, 361, 4000, 4000), (640, 360));
    assert_eq!(fit_dims(1, 1, 4000, 4000), (2, 2));
}
