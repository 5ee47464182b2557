use kiriko::anim::{easy_ease, Keyframe, SideInterp};
use kiriko::beat::window_hop;
use kiriko::eval::{blend_tag, frame_key, key_of_digest, FrameKey, Quality, ALGO_VERSION};
use kiriko::export::{mask_rgba, ExportPreset};
use kiriko::markers::{with_regenerated_beats, Marker, MarkerKind};
use kiriko::model::{BlendMode, TransformProp};
use kiriko::rational::rat;
use kiriko::retime::Ease;
use kiriko::shell::{
    aspect_ratio_label, blend_name, duration_of_millis, ease_label, key_shape, prop_unit, timecode_of_frames,
    trim_title, KeyShape, Panel,
};
use kiriko::text::{blank_canvas, blit_glyph};
use kiriko::time::CompTime;

fn key(i: SideInterp, o: SideInterp) -> Keyframe {
    Keyframe { time: rat(0, 1), value: 0, interp_in: i, interp_out: o }
}

#[test]
fn linear_bezier_conversion_keeps_the_key_values() {
    let five = 5.0f64.to_bits();
    let k = Keyframe { time: rat(1, 1), value: five, interp_in: SideInterp::Linear, interp_out: SideInterp::Linear };
    assert!(!k.is_bezier());
    let b = k.to_bezier();
    assert!(b.is_bezier());
    assert_eq!(b.interp_in, easy_ease());
    assert_eq!(b.interp_out, easy_ease());
    assert_eq!(f64::from_bits(b.value), 5.0);
    let l = b.to_linear();
    assert!(!l.is_bezier());
    assert_eq!(l.interp_in, SideInterp::Linear);
    assert_eq!(easy_ease(), SideInterp::Bezier { speed: 0.0f64.to_bits(), influence: (1.0f64 / 3.0).to_bits() });
}

#[test]
fn key_shape_codes_interpolation() {
    assert_eq!(key_shape(&key(SideInterp::Linear, SideInterp::Linear)), KeyShape::Diamond);
    assert_eq!(key_shape(&key(SideInterp::Hold, SideInterp::Linear)), KeyShape::Square);
    assert_eq!(key_shape(&key(SideInterp::Linear, easy_ease())), KeyShape::Circle);
    assert_eq!(key_shape(&key(easy_ease(), SideInterp::Hold)), KeyShape::Square);
}

#[test]
fn frame_timecode_formats_and_wraps() {
    assert_eq!(timecode_of_frames(0, 25), "00:00:00:00");
    assert_eq!(timecode_of_frames(60, 30), "00:00:02:00");
    assert_eq!(timecode_of_frames(1, 25), "00:00:00:01");
    assert_eq!(timecode_of_frames(24, 25), "00:00:00:24");
    assert_eq!(timecode_of_frames(25, 25), "00:00:01:00");
    assert_eq!(timecode_of_frames(3661 * 24, 24), "01:01:01:00");
    assert_eq!(timecode_of_frames(100 * 3600 * 25, 25), "100:00:00:00");
}

#[test]
fn durations_format_with_milliseconds() {
    assert_eq!(duration_of_millis(0), "00:00:00:000");
    assert_eq!(duration_of_millis(3_723_004), "01:02:03:004");
}

#[test]
fn aspect_ratios_reduce() {
    assert_eq!(aspect_ratio_label(1920, 1080), "16:9");
    assert_eq!(aspect_ratio_label(1080, 1920), "9:16");
    assert_eq!(aspect_ratio_label(0, 5), "0:5");
    assert_eq!(aspect_ratio_label(7, 7), "1:1");
}

#[test]
fn titles_trim_past_the_cap() {
    let short = "a".repeat(48);
    assert_eq!(trim_title(&short), short);
    let long = "é".repeat(60);
    let t = trim_title(&long);
    assert_eq!(t.chars().count(), 48);
    assert!(t.ends_with('…'));
    assert!(t.starts_with(&"é".repeat(47)));
}

#[test]
fn labels_and_units() {
    assert_eq!(Panel::Project.title(), "Project");
    assert_eq!(Panel::EffectsAndPresets.title(), "Effects & presets");
    assert_eq!(ease_label(Ease::Smooth), "Smooth");
    assert_eq!(prop_unit(TransformProp::Opacity), "%");
    assert_eq!(prop_unit(TransformProp::RotationX), "°");
    assert_eq!(prop_unit(TransformProp::PositionX), "");
    assert_eq!(blend_name(BlendMode::SoftLight), "Soft light");
    assert_eq!(blend_tag(BlendMode::Darken), 8);
    assert_eq!(blend_tag(BlendMode::Normal), 0);
}

#[test]
fn export_presets_and_masks() {
    assert_eq!(ExportPreset::Native.target(640, 480), (640, 480));
    assert_eq!(ExportPreset::Vertical1080.target(640, 480), (1080, 1920));
    assert_eq!(ExportPreset::Youtube2160.label(), "YouTube 4K");
    assert_eq!(mask_rgba(&[0, 128]), vec![255, 255, 255, 0, 255, 255, 255, 128]);
    assert!(mask_rgba(&[]).is_empty());
}

#[test]
fn export_handle_cancel_raises_the_flag() {
    let (_tx, rx) = std::sync::mpsc::channel();
    let flag = std::sync::Arc::new(std::sync::atomic::AtomicBool::new(false));
    let h = kiriko::export::ExportHandle::new(rx, flag.clone());
    h.cancel();
    assert!(flag.load(std::sync::atomic::Ordering::Relaxed));
}

#[test]
fn stft_sizing_follows_the_rate() {
    // About 43 ms to the nearest power of two, a quarter-window hop:
    // 48 kHz gives 2048 / 512, i.e. 93.75 envelope frames a second.
    assert_eq!(window_hop(48_000), (2048, 512));
    assert_eq!(window_hop(44_100), (2048, 512));
    assert_eq!(window_hop(96_000), (4096, 1024));
    assert_eq!(window_hop(8_000), (256, 64));
    assert_eq!(window_hop(0), (256, 64));
    assert_eq!(window_hop(u32::MAX), (8192, 2048));
}

#[test]
fn frame_keys_are_blake3_prefixes() {
    let stream = b"comp/hello";
    let digest = *blake3::hash(stream).as_bytes();
    let mut k = [0u8; 16];
    k.copy_from_slice(&digest[..16]);
    assert_eq!(frame_key(stream), FrameKey(u128::from_le_bytes(k)));
    assert_eq!(key_of_digest(&digest), FrameKey(u128::from_le_bytes(k)));
    assert_ne!(frame_key(b"a"), frame_key(b"b"));
    assert_eq!(Quality::default(), Quality { divisor: 1 });
    assert_eq!(ALGO_VERSION, 1);
}

#[test]
fn regenerating_beats_keeps_user_markers() {
    let at = |n: i64, kind: MarkerKind| Marker { id: n as u128, time: CompTime(rat(n, 1)), duration: None, label: String::new(), kind };
    let existing = [
        at(0, MarkerKind::User),
        at(1, MarkerKind::Beat { confidence: 0.5f32.to_bits() }),
        at(3, MarkerKind::Chapter),
    ];
    let fresh = vec![Marker::beat(10, rat(2, 1), 0.9f32.to_bits()), Marker::beat(11, rat(4, 1), 0.8f32.to_bits())];
    let merged = with_regenerated_beats(&existing, fresh);
    let times: Vec<_> = merged.iter().map(|m| m.time.0).collect();
    assert_eq!(times, vec![rat(0, 1), rat(2, 1), rat(3, 1), rat(4, 1)]);
    assert_eq!(merged.iter().filter(|m| m.is_beat()).count(), 2);
}

#[test]
fn stable_sort_keeps_equal_times_in_order() {
    let user = Marker::user(1, rat(2, 1));
    let beat = Marker::beat(2, rat(2, 1), 0);
    let merged = with_regenerated_beats(&[user], vec![beat]);
    assert_eq!(merged.iter().map(|m| m.id).collect::<Vec<_>>(), vec![1, 2]);
}

#[test]
fn glyphs_blit_with_clipping_and_max_alpha() {
    let mut canvas = blank_canvas(3, 2);
    assert_eq!(canvas.len(), 24);
    // A 2×2 glyph at (2, -1): only its bottom-left pixel lands, on (2, 0).
    blit_glyph(&mut canvas, 3, 2, 2, -1, 2, 2, &[1, 2, 3, 4], [9, 8, 7]);
    assert_eq!(&canvas[8..12], &[9, 8, 7, 3]);
    assert_eq!(canvas.iter().filter(|&&b| b != 0).count(), 4);
    // A second glyph over the same pixel keeps the larger coverage.
    blit_glyph(&mut canvas, 3, 2, 2, 0, 1, 1, &[1], [1, 1, 1]);
    assert_eq!(&canvas[8..12], &[1, 1, 1, 3]);
}
