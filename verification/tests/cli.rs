use a3d::cli::{
    benchmark_finished, color_enabled, handle_gpu_error, parse_frame_size, parse_hex_rgb,
    prefer_gpu, FrameTime,
};

#[test]
fn gpu_failure_policy_preserves_explicit_backend_choice() {
    assert!(handle_gpu_error(false, "device lost".into()).is_ok());
    let error = handle_gpu_error(true, "device lost".into()).unwrap_err();
    assert!(error.to_string().contains("device lost"));
}

#[test]
fn forced_gpu_failure_message_names_the_gpu() {
    let error = handle_gpu_error(true, "out of memory".into()).unwrap_err();
    assert_eq!(error, "GPU rendering failed: out of memory");
}

#[test]
fn backend_selection_uses_the_faster_renderer() {
    assert!(prefer_gpu(FrameTime::from_millis(2), FrameTime::from_millis(1)));
    assert!(!prefer_gpu(FrameTime::from_millis(1), FrameTime::from_millis(2)));
    assert!(!prefer_gpu(FrameTime::from_millis(1), FrameTime::from_millis(1)));
}

#[test]
fn frame_time_units() {
    assert_eq!(FrameTime::from_millis(3).nanos, 3_000_000);
    assert_eq!(FrameTime::from_nanos(17).nanos, 17);
}

#[test]
fn frame_size_is_bounded_and_well_formed() {
    assert_eq!(parse_frame_size("8x10").unwrap(), (8, 10));
    assert!(parse_frame_size("0x10").is_err());
    assert!(parse_frame_size("8").is_err());
    assert!(parse_frame_size("999x10").is_err());
}

#[test]
fn frame_size_error_messages() {
    assert_eq!(
        parse_frame_size("8").unwrap_err(),
        "expected WIDTHxHEIGHT (for example 8x10)"
    );
    assert_eq!(
        parse_frame_size("ax10").unwrap_err(),
        "frame width must be a positive integer"
    );
    assert_eq!(
        parse_frame_size("8x").unwrap_err(),
        "frame height must be a positive integer"
    );
    assert_eq!(
        parse_frame_size("8x-1").unwrap_err(),
        "frame height must be a positive integer"
    );
    assert_eq!(
        parse_frame_size("0x10").unwrap_err(),
        "frame dimensions must each be from 1 to 256"
    );
    assert_eq!(
        parse_frame_size("257x1").unwrap_err(),
        "frame dimensions must each be from 1 to 256"
    );
    // Too large for a usize: rejected while reading the number.
    assert_eq!(
        parse_frame_size("99999999999999999999999x1").unwrap_err(),
        "frame width must be a positive integer"
    );
}

#[test]
fn frame_size_edges() {
    assert_eq!(parse_frame_size("1x1").unwrap(), (1, 1));
    assert_eq!(parse_frame_size("256x256").unwrap(), (256, 256));
    assert_eq!(parse_frame_size("+8x+10").unwrap(), (8, 10));
    assert_eq!(parse_frame_size("008x010").unwrap(), (8, 10));
    // The first 'x' splits; the rest must be digits.
    assert!(parse_frame_size("8x10x2").is_err());
    assert!(parse_frame_size("x").is_err());
    assert!(parse_frame_size(" 8x10").is_err());
}

/// The colour that the command line hands the renderer: each byte scaled to 0..=1.
fn parse_hex_color(s: &str) -> Result<[f32; 3], String> {
    parse_hex_rgb(s).map(|c| [c[0] as f32 / 255.0, c[1] as f32 / 255.0, c[2] as f32 / 255.0])
}

#[test]
fn parses_six_hex_digits() {
    assert_eq!(parse_hex_rgb("ff6600").unwrap(), [255, 102, 0]);
    let c = parse_hex_color("ff6600").unwrap();
    assert!((c[0] - 1.0).abs() < 1e-6);
    assert!((c[1] - 102.0 / 255.0).abs() < 1e-6);
    assert!((c[2] - 0.0).abs() < 1e-6);
}

#[test]
fn leading_hash_is_optional() {
    assert_eq!(parse_hex_color("#1a2b3c"), parse_hex_color("1a2b3c"));
    assert_eq!(parse_hex_rgb("#1a2b3c").unwrap(), [0x1a, 0x2b, 0x3c]);
    assert!(parse_hex_rgb("##1a2b3c").is_err());
}

#[test]
fn endpoints() {
    assert_eq!(parse_hex_color("000000").unwrap(), [0.0, 0.0, 0.0]);
    assert_eq!(parse_hex_color("ffffff").unwrap(), [1.0, 1.0, 1.0]);
    assert_eq!(parse_hex_rgb("FFFFFF").unwrap(), [255, 255, 255]);
}

#[test]
fn rejects_wrong_length() {
    assert!(parse_hex_color("fff").is_err());
    assert!(parse_hex_color("ff66000").is_err());
    assert!(parse_hex_color("").is_err());
    assert_eq!(
        parse_hex_rgb("fff").unwrap_err(),
        "expected 6 hex digits (e.g. ff6600)"
    );
}

#[test]
fn rejects_non_hex() {
    assert!(parse_hex_color("gggggg").is_err());
    assert!(parse_hex_color("12345z").is_err());
    assert!(parse_hex_color("aéaaa").is_err());
}

#[test]
fn hex_refuses_a_sign() {
    assert!(parse_hex_rgb("+fffff").is_err());
    assert!(parse_hex_rgb("+abcde").is_err());
    assert!(parse_hex_rgb("#+abcde").is_err());
    assert!(parse_hex_rgb("-abcde").is_err());
}

#[test]
fn benchmark_stops_after_enough_frames_or_time() {
    assert!(!benchmark_finished(2, FrameTime::from_millis(50)));
    assert!(!benchmark_finished(3, FrameTime::from_millis(9)));
    assert!(benchmark_finished(3, FrameTime::from_millis(10)));
    assert!(benchmark_finished(30, FrameTime::from_millis(1)));
    assert!(!benchmark_finished(29, FrameTime::from_millis(1)));
}

#[test]
fn fg_or_bg_implies_color() {
    assert!(!color_enabled(false, false, false));
    assert!(color_enabled(true, false, false));
    assert!(color_enabled(false, true, false));
    assert!(color_enabled(false, false, true));
}

#[test]
fn hex_written_colors_read_back() {
    for c in [[0u8, 0, 0], [255, 102, 0], [0x1a, 0x2b, 0x3c], [255, 255, 255], [9, 160, 15]] {
        let text = format!("{:02x}{:02x}{:02x}", c[0], c[1], c[2]);
        assert_eq!(parse_hex_rgb(&text).unwrap(), c);
    }
}

#[test]
fn written_frame_sizes_read_back() {
    for (w, h) in [(1, 1), (8, 10), (256, 256), (80, 24)] {
        assert_eq!(parse_frame_size(&format!("{w}x{h}")).unwrap(), (w, h));
    }
}
