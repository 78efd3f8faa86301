use openuuyc::stream_menu::{
    can_send_secure_attention, hdr_switch_enabled, mouse_label, needs_confirmation,
    quality_row_enabled, MouseMode, Page, StatusLine, StreamControlUi, StreamQuality,
    StreamSettings, StreamStatus,
};

fn settings(quality: StreamQuality, custom: u32) -> StreamSettings {
    StreamSettings {
        quality,
        custom_bitrate_mbps: custom,
        frame_rate: 60,
        true_color: false,
        hdr: false,
    }
}

fn quiet() -> StreamStatus {
    StreamStatus {
        mouse_error: None,
        cursor_error: None,
        last_error: None,
        network_error: None,
        persistence_error: None,
        waiting_for: None,
        pending: false,
    }
}

#[test]
fn a_fresh_window_follows_the_remote() {
    let ui = StreamControlUi::default();
    assert!(!ui.open);
    assert_eq!(ui.page, Page::Quality);
    let current = settings(StreamQuality::High, 20);
    assert_eq!(ui.working_settings(current), current);
}

#[test]
fn choosing_a_preset_applies_it() {
    let mut ui = StreamControlUi::default();
    let current = settings(StreamQuality::High, 20);
    let mut edit = ui.working_settings(current);
    assert!(ui.click_quality(&mut edit, StreamQuality::Original, current, 50, false));
    assert_eq!(edit.quality, StreamQuality::Original);
    let mut same = current;
    assert!(!ui.click_quality(&mut same, StreamQuality::High, current, 50, false));
    assert!(ui.click_quality(&mut same, StreamQuality::High, current, 50, true));
}

#[test]
fn the_custom_row_opens_its_page_with_a_capped_bitrate() {
    let mut ui = StreamControlUi::default();
    let current = settings(StreamQuality::High, 80);
    let mut edit = current;
    assert!(!ui.click_quality(&mut edit, StreamQuality::Custom, current, 50, false));
    assert_eq!(ui.page, Page::Custom);
    assert_eq!(edit.quality, StreamQuality::Custom);
    assert_eq!(edit.custom_bitrate_mbps, 50);
    assert!(ui.dirty);
    assert!(ui.can_apply(false));
}

#[test]
fn back_cancels_unapplied_changes() {
    let mut ui = StreamControlUi::default();
    let current = settings(StreamQuality::High, 20);
    let mut edit = current;
    ui.click_quality(&mut edit, StreamQuality::Custom, current, 50, false);
    ui.commit(edit, true, false);
    assert_eq!(ui.working_settings(current), edit);
    ui.go_back();
    assert_eq!(ui.page, Page::Quality);
    assert_eq!(ui.working_settings(current), current);
    assert!(!ui.can_apply(false));
}

#[test]
fn a_failed_request_keeps_the_edit_for_a_retry() {
    let mut ui = StreamControlUi::default();
    let current = settings(StreamQuality::High, 20);
    let edit = settings(StreamQuality::Clear, 20);
    ui.commit(edit, true, false);
    ui.finish(Err("busy".to_string()));
    assert_eq!(ui.local_error.as_deref(), Some("busy"));
    assert!(ui.can_apply(false));
    assert_eq!(ui.working_settings(current), edit);
    ui.finish(Ok(7));
    assert_eq!(ui.local_error, None);
    assert!(!ui.can_apply(false));
    assert_eq!(ui.working_settings(current), current);
}

#[test]
fn closing_resets_the_window() {
    let mut ui = StreamControlUi::default();
    ui.open = true;
    ui.page = Page::Mouse;
    ui.dirty = true;
    ui.local_error = Some("x".to_string());
    ui.commit(settings(StreamQuality::Auto, 1), true, true);
    assert!(!ui.open);
    ui.reset();
    assert_eq!(ui.page, Page::Quality);
    assert!(ui.settings.is_none() && !ui.dirty && ui.local_error.is_none());
    assert!(ui.format_confirm.is_none());
}

#[test]
fn format_changes_beyond_the_request_wait_for_confirmation() {
    let current = settings(StreamQuality::High, 20);
    let mut hdr_on = current;
    hdr_on.hdr = true;
    assert!(!needs_confirmation(hdr_on, current, true));
    let mut both = hdr_on;
    both.true_color = true;
    assert!(needs_confirmation(both, current, true));
    let mut quality = hdr_on;
    quality.quality = StreamQuality::Original;
    assert!(needs_confirmation(quality, current, true));

    let mut ui = StreamControlUi::default();
    assert!(ui.propose_format(2, hdr_on, current, true));
    assert!(ui.format_confirm.is_none());
    assert!(!ui.propose_format(2, both, current, true));
    assert_eq!(ui.format_confirm, Some((2, both)));
    ui.format_applied(Err("refused".to_string()));
    assert!(ui.format_confirm.is_none());
    assert_eq!(ui.local_error.as_deref(), Some("refused"));
    ui.propose_format(1, both, current, true);
    ui.cancel_format();
    assert!(ui.format_confirm.is_none());
}

#[test]
fn status_line_reports_the_first_error() {
    let mut ui = StreamControlUi::default();
    let mut st = quiet();
    assert_eq!(ui.status_line(&st), StatusLine::Quiet);
    st.pending = true;
    assert_eq!(ui.status_line(&st), StatusLine::Applying);
    st.waiting_for = Some("decoder".to_string());
    assert_eq!(ui.status_line(&st), StatusLine::Waiting("decoder".to_string()));
    st.persistence_error = Some("disk".to_string());
    assert_eq!(ui.status_line(&st), StatusLine::NotSaved("disk".to_string()));
    st.network_error = Some("net".to_string());
    st.cursor_error = Some("cursor".to_string());
    assert_eq!(ui.status_line(&st), StatusLine::NotApplied("cursor".to_string()));
    ui.local_error = Some("local".to_string());
    assert_eq!(ui.status_line(&st), StatusLine::NotApplied("local".to_string()));
    ui.page = Page::Display;
    assert_eq!(ui.status_line(&st), StatusLine::Quiet);
}

#[test]
fn row_and_switch_availability() {
    assert!(quality_row_enabled(true, StreamQuality::High, false));
    assert!(!quality_row_enabled(true, StreamQuality::Custom, false));
    assert!(quality_row_enabled(true, StreamQuality::Custom, true));
    assert!(!quality_row_enabled(false, StreamQuality::Auto, true));
    assert!(hdr_switch_enabled(true, false, true, true));
    assert!(!hdr_switch_enabled(true, false, false, true));
    assert!(!hdr_switch_enabled(true, true, true, false));
    assert!(can_send_secure_attention(true, false, MouseMode::Smart, true, false));
    assert!(!can_send_secure_attention(true, false, MouseMode::View, true, false));
    assert!(!can_send_secure_attention(true, false, MouseMode::Remote, true, true));
}

#[test]
fn mouse_mode_names() {
    assert_eq!(mouse_label(MouseMode::Smart), "智能鼠标");
    assert_eq!(mouse_label(MouseMode::View), "智能鼠标");
    assert_eq!(mouse_label(MouseMode::Remote), "被控端鼠标");
    assert_eq!(mouse_label(MouseMode::Local), "主控端鼠标");
}

#[test]
fn the_custom_slider_marks_the_edit() {
    let mut ui = StreamControlUi::default();
    ui.mark_edited(false);
    assert!(!ui.dirty);
    ui.mark_edited(true);
    assert!(ui.dirty);
    ui.mark_edited(false);
    assert!(ui.dirty);
}
