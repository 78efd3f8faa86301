use openuuyc::analysis::{
    layer_visible, next_revision, packet_current, repaint_after, sample_fps, TextureSizes,
    UploadError, UploadPlan, MAX_TEXTURES,
};
use openuuyc::annotation_color::{hex, opacity_alpha, parse_hex};
use openuuyc::dialogs::{countdown_caption, DialogAction, DialogIcon, IconTone};
use openuuyc::effects::{select_effect, Effect};
use openuuyc::listing::{
    file_kind, row_action, service_hint, service_tone, status_detail, FileKind, RowAction,
    ServiceHint, ServiceTone,
};
use openuuyc::numeric::parse_u32;
use openuuyc::stream_menu::{
    bitrate_caption, bitrate_index, custom_detail, heading, speaker_stage, Page,
};
use openuuyc::watch::{within_limit, SendOutcome, Stamp, WatchAction, WatchState};

#[test]
fn hex_colour_text() {
    assert_eq!(hex([255, 0, 16]), "FF0010");
    assert_eq!(hex([0, 0, 0]), "000000");
}

#[test]
fn hex_colour_reads_back() {
    for rgb in [[255u8, 0, 16], [1, 2, 3], [171, 205, 239]] {
        assert_eq!(parse_hex(&hex(rgb)), Some(rgb));
    }
}

#[test]
fn hex_field_accepts_marks_space_and_any_case() {
    assert_eq!(parse_hex(" #ff0010 "), Some([255, 0, 16]));
    assert_eq!(parse_hex("##aBcDeF"), Some([171, 205, 239]));
    assert_eq!(parse_hex("+FFFFF"), Some([15, 255, 255]));
    assert_eq!(parse_hex("12345"), None);
    assert_eq!(parse_hex("1234567"), None);
    assert_eq!(parse_hex("GG0000"), None);
    assert_eq!(parse_hex(""), None);
}

#[test]
fn opacity_percentage_to_alpha() {
    assert_eq!(opacity_alpha(100), 255);
    assert_eq!(opacity_alpha(50), 127);
    assert_eq!(opacity_alpha(1), 2);
    assert_eq!(opacity_alpha(0), 0);
}

#[test]
fn decimal_and_hex_numbers() {
    let d: Vec<char> = "4294967295".chars().collect();
    assert_eq!(parse_u32(&d, 10), Some(u32::MAX));
    let over: Vec<char> = "4294967296".chars().collect();
    assert_eq!(parse_u32(&over, 10), None);
    assert_eq!(parse_u32(&['+', 'f', 'F'], 16), Some(255));
    assert_eq!(parse_u32(&['f'], 10), None);
    assert_eq!(parse_u32(&[], 10), None);
    assert_eq!(parse_u32(&['+'], 10), None);
}

#[test]
fn dialog_actions_and_icons() {
    let a = DialogAction::new("删除").enabled(false).danger(true);
    assert_eq!(a.label(), "删除");
    assert!(!a.is_enabled());
    assert!(a.is_danger());
    let b = DialogAction::new("好");
    assert!(b.is_enabled());
    assert!(!b.is_danger());
    assert_eq!(DialogIcon::Warning.tone(), IconTone::Amber);
    assert_eq!(DialogIcon::Required.tone(), IconTone::Amber);
    assert_eq!(DialogIcon::Error.tone(), IconTone::Red);
    assert_eq!(DialogIcon::Files.tone(), IconTone::Accent);
}

#[test]
fn effects_are_found_by_name() {
    assert_eq!(select_effect(1, b"openuuyc.effects.color"), Some(Effect::Color));
    assert_eq!(select_effect(1, b"openuuyc.effects.sharpen"), Some(Effect::Sharpen));
    assert_eq!(select_effect(1, b"openuuyc.effects.pixelate"), Some(Effect::Pixelate));
    assert_eq!(select_effect(2, b"openuuyc.effects.color"), None);
    assert_eq!(select_effect(1, b"openuuyc.effects.blur"), None);
    assert_eq!(select_effect(1, &[b'a'; 129]), None);
}

#[test]
fn file_marks_by_extension() {
    assert_eq!(file_kind("photo.JPG"), FileKind::Image);
    assert_eq!(file_kind("song.flac"), FileKind::Media);
    assert_eq!(file_kind("archive.tar.gz"), FileKind::Other);
    assert_eq!(file_kind("png"), FileKind::Image);
    assert_eq!(file_kind("file."), FileKind::Other);
    assert_eq!(file_kind("Movie.Mp4"), FileKind::Media);
}

#[test]
fn mapping_row_rules() {
    assert_eq!(service_hint(true, Some(false)), ServiceHint::Http);
    assert_eq!(service_hint(false, Some(true)), ServiceHint::Tcp);
    assert_eq!(service_hint(false, None), ServiceHint::Unknown);
    assert_eq!(service_tone(true, Some(false)), ServiceTone::Accent);
    assert_eq!(service_tone(false, Some(false)), ServiceTone::Red);
    assert_eq!(service_tone(false, Some(true)), ServiceTone::Muted);
    assert_eq!(status_detail(true, "x"), "探测中…");
    assert_eq!(status_detail(false, "x"), "x");
    assert_eq!(row_action(true, Some(true), true, true), RowAction::Delete);
    assert_eq!(row_action(true, Some(false), true, false), RowAction::Edit);
    assert_eq!(row_action(true, Some(false), false, false), RowAction::Enable(false));
    assert_eq!(row_action(true, None, false, false), RowAction::Probe);
    assert_eq!(row_action(false, None, false, false), RowAction::Nothing);
}

#[test]
fn stream_menu_texts() {
    assert_eq!(Page::default(), Page::Quality);
    assert_eq!(Page::Custom.title(), "自定义码率");
    assert_eq!(Page::Mouse.title(), "鼠标模式");
    assert_eq!(heading(Page::Quality, true), "画质 · 全部屏幕");
    assert_eq!(heading(Page::Quality, false), "画质");
    assert_eq!(heading(Page::Display, true), "显示设置");
    assert_eq!(bitrate_caption(8, 50), "8/50 Mbps");
    assert_eq!(custom_detail(80, 50), "50 Mbps");
    assert_eq!(custom_detail(12, 50), "12 Mbps");
}

#[test]
fn speaker_glyph_stages() {
    assert_eq!(speaker_stage(80, true), 0);
    assert_eq!(speaker_stage(0, false), 0);
    assert_eq!(speaker_stage(33, false), 1);
    assert_eq!(speaker_stage(34, false), 2);
    assert_eq!(speaker_stage(66, false), 2);
    assert_eq!(speaker_stage(67, false), 3);
}

#[test]
fn bitrate_slider_position() {
    let choices = [1u32, 2, 5, 10, 20];
    assert_eq!(bitrate_index(&choices, 6), 2);
    assert_eq!(bitrate_index(&choices, 20), 4);
    assert_eq!(bitrate_index(&choices, 0), 0);
    assert_eq!(bitrate_index(&[], 3), 0);
}

#[test]
fn texture_uploads() {
    let mut t = TextureSizes::new();
    assert_eq!(t.apply(1, (10, 10), None), Ok(UploadPlan::Create));
    assert_eq!(t.apply(1, (5, 5), Some((5, 5))), Ok(UploadPlan::Partial));
    assert_eq!(t.apply(1, (5, 5), Some((6, 5))), Err(UploadError::OutOfBounds));
    assert_eq!(t.apply(1, (1, 1), Some((usize::MAX, 0))), Err(UploadError::OutOfBounds));
    assert_eq!(t.apply(2, (1, 1), Some((0, 0))), Err(UploadError::UnknownTexture));
    assert_eq!(t.apply(1, (20, 20), None), Ok(UploadPlan::Replace));
    assert_eq!(t.apply(1, (15, 15), Some((5, 5))), Ok(UploadPlan::Partial));
    assert_eq!(UploadError::TooMuchMemory.message(), "插件纹理内存超限");
}

#[test]
fn texture_count_is_limited() {
    let mut t = TextureSizes::new();
    for id in 0..MAX_TEXTURES as u64 {
        assert_eq!(t.apply(id, (1, 1), None), Ok(UploadPlan::Create));
    }
    assert_eq!(t.apply(999, (1, 1), None), Err(UploadError::TooManyTextures));
    assert_eq!(t.apply(0, (2, 2), None), Ok(UploadPlan::Replace));
}

#[test]
fn texture_memory_budget() {
    let mut t = TextureSizes::new();
    t.apply(1, (2048, 2048), None).unwrap();
    assert!(t.within_budget());
    t.apply(2, (1, 1), None).unwrap();
    assert!(!t.within_budget());
    t.clear();
    t.apply(3, (usize::MAX, 2), None).unwrap();
    assert!(!t.within_budget());
}

#[test]
fn overlay_layer_timing() {
    assert!(layer_visible(true, false, 400_000_000));
    assert!(!layer_visible(true, false, 400_000_001));
    assert!(layer_visible(true, true, 9_000_000_000));
    assert!(!layer_visible(false, true, 0));
    assert_eq!(repaint_after(100_000_000), Some(300_000_000));
    assert_eq!(repaint_after(400_000_000), None);
    assert!(packet_current(3, 1, 3, 1));
    assert!(!packet_current(3, 1, 4, 1));
    assert!(!packet_current(3, 1, 3, 2));
}

#[test]
fn analysis_settings() {
    assert_eq!(sample_fps(None), 10);
    assert_eq!(sample_fps(Some(0)), 1);
    assert_eq!(sample_fps(Some(30)), 30);
    assert_eq!(next_revision(None, true), 2);
    assert_eq!(next_revision(Some(5), true), 6);
    assert_eq!(next_revision(Some(5), false), 5);
    assert_eq!(next_revision(Some(u64::MAX), true), 0);
}

#[test]
fn watcher_loads_each_version_once() {
    let v1 = Stamp { modified: Some(1), len: 10 };
    let v2 = Stamp { modified: Some(2), len: 10 };
    let mut w = WatchState::new();
    assert_eq!(w.plan(Some(v1)), WatchAction::Load(v1));
    assert!(w.after_send(WatchAction::Load(v1), SendOutcome::Full));
    assert_eq!(w.plan(Some(v1)), WatchAction::Load(v1));
    assert!(w.after_send(WatchAction::Load(v1), SendOutcome::Sent));
    assert_eq!(w.plan(Some(v1)), WatchAction::Wait);
    assert_eq!(w.plan(Some(v2)), WatchAction::Load(v2));
    assert!(!w.after_send(WatchAction::Load(v2), SendOutcome::Closed));
}

#[test]
fn watcher_reports_a_missing_graph_once() {
    let mut w = WatchState::new();
    assert_eq!(w.plan(None), WatchAction::ReportMissing);
    assert!(w.after_send(WatchAction::ReportMissing, SendOutcome::Closed));
    assert_eq!(w.plan(None), WatchAction::ReportMissing);
    assert!(w.after_send(WatchAction::ReportMissing, SendOutcome::Sent));
    assert_eq!(w.plan(None), WatchAction::Wait);
    assert!(within_limit(1024 * 1024));
    assert!(!within_limit(1024 * 1024 + 1));
}

#[test]
fn reconnect_countdown_text() {
    assert_eq!(countdown_caption(5), "5 秒");
    assert_eq!(countdown_caption(0), "0 秒");
    assert_eq!(countdown_caption(120), "120 秒");
}
