use openuuyc::dialogs::DialogIcon;
use openuuyc::notices::{LayerKey, NoticeState};

const MODAL: u64 = 0xfeed;

#[test]
fn published_notice_is_shown_and_leaves_on_acknowledge() {
    let mut s = NoticeState::new(MODAL);
    s.notice(1, None, 7, "保存", DialogIcon::Error, "保存失败".to_string());
    let n = s.current_notice(1).expect("queued");
    assert_eq!(n.source, 7);
    assert_eq!(n.title, "保存");
    assert_eq!(n.message, "保存失败");
    assert_eq!(n.action, None);
    assert!(!n.report);
    s.acknowledge(7, false, true);
    assert!(s.current_notice(2).is_none());
}

#[test]
fn same_result_is_shown_again_after_acknowledgement() {
    let mut s = NoticeState::new(MODAL);
    s.notice(1, None, 7, "保存", DialogIcon::Error, "保存失败".to_string());
    assert!(s.current_notice(1).is_some());
    s.acknowledge(7, false, false);
    s.notice(3, None, 7, "保存", DialogIcon::Error, "保存失败".to_string());
    let n = s.current_notice(3).expect("queued again");
    assert_eq!(n.message, "保存失败");
}

#[test]
fn blank_messages_are_not_published() {
    let mut s = NoticeState::new(MODAL);
    s.notice(1, None, 3, "t", DialogIcon::Info, " \t\n".to_string());
    assert!(s.current_notice(1).is_none());
}

#[test]
fn republishing_rewrites_the_queued_notice() {
    let mut s = NoticeState::new(MODAL);
    s.notice(1, None, 4, "a", DialogIcon::Info, "first".to_string());
    s.notice(1, None, 5, "b", DialogIcon::Info, "other".to_string());
    s.notice(1, None, 4, "c", DialogIcon::Warning, "second".to_string());
    let n = s.current_notice(1).unwrap();
    assert_eq!(n.source, 4);
    assert_eq!(n.title, "c");
    assert_eq!(n.message, "second");
    s.acknowledge(4, false, false);
    let n = s.current_notice(2).unwrap();
    assert_eq!(n.source, 5);
    s.acknowledge(5, false, false);
    assert!(s.current_notice(3).is_none());
}

#[test]
fn observed_text_is_shown_once_until_it_changes() {
    let mut s = NoticeState::new(MODAL);
    s.observe_notice(8, "连接", DialogIcon::Error, Some("断开"));
    assert_eq!(s.current_notice(1).unwrap().message, "断开");
    s.acknowledge(8, false, false);
    s.observe_notice(8, "连接", DialogIcon::Error, Some("断开"));
    assert!(s.current_notice(2).is_none());
    s.observe_notice(8, "连接", DialogIcon::Error, None);
    s.observe_notice(8, "连接", DialogIcon::Error, Some("断开"));
    assert_eq!(s.current_notice(3).unwrap().message, "断开");
}

#[test]
fn observing_changed_text_updates_the_queue() {
    let mut s = NoticeState::new(MODAL);
    s.observe_notice(8, "t", DialogIcon::Info, Some("a"));
    s.observe_notice(8, "t", DialogIcon::Info, Some("b"));
    assert_eq!(s.current_notice(1).unwrap().message, "b");
}

#[test]
fn progress_notice_ends_when_not_refreshed() {
    let mut s = NoticeState::new(MODAL);
    s.progress_notice(1, 9, "上传", Some("正在上传"));
    let n = s.current_notice(1).unwrap();
    assert_eq!(n.icon, DialogIcon::Waiting);
    assert_eq!(n.action.as_deref(), Some("关闭提示"));
    s.progress_notice(2, 9, "上传", Some("正在上传"));
    assert!(s.current_notice(2).is_some());
    assert!(s.current_notice(3).is_none());
}

#[test]
fn progress_notice_ends_when_cleared() {
    let mut s = NoticeState::new(MODAL);
    s.progress_notice(1, 9, "上传", Some("正在上传"));
    s.progress_notice(1, 9, "上传", None);
    assert!(s.current_notice(1).is_none());
}

#[test]
fn reported_choice_is_returned_once() {
    let mut s = NoticeState::new(MODAL);
    assert_eq!(
        s.observe_notice_action(10, "更新", DialogIcon::Warning, Some("需要重启"), "重启"),
        None
    );
    let n = s.current_notice(1).unwrap();
    assert!(n.report);
    assert_eq!(n.action.as_deref(), Some("重启"));
    s.acknowledge(10, true, true);
    assert_eq!(
        s.observe_notice_action(10, "更新", DialogIcon::Warning, Some("需要重启"), "重启"),
        Some(true)
    );
    assert_eq!(
        s.observe_notice_action(10, "更新", DialogIcon::Warning, Some("需要重启"), "重启"),
        None
    );
}

#[test]
fn cleared_source_is_forgotten() {
    let mut s = NoticeState::new(MODAL);
    s.observe_notice(12, "t", DialogIcon::Info, Some("x"));
    s.clear_notice(12);
    assert!(s.current_notice(1).is_none());
    s.observe_notice(12, "t", DialogIcon::Info, Some("x"));
    assert!(s.current_notice(2).is_some());
}

#[test]
fn form_dialog_shows_only_its_own_notices() {
    let mut s = NoticeState::new(MODAL);
    let form = LayerKey { order: 2, id: 55 };
    s.notice(4, None, 20, "后台", DialogIcon::Error, "后台失败".to_string());
    s.register_dialog(5, form);
    s.observe_form_notice(5, None, 21, "表单", DialogIcon::Required, Some("请填写名称"));
    let n = s.current_notice(5).unwrap();
    assert_eq!(n.source, 21);
    assert_eq!(n.parent, Some(form));
    s.acknowledge(21, false, false);
    assert!(s.current_notice(5).is_none());
    // Once the form is gone, the background notice is shown.
    let n = s.current_notice(6).unwrap();
    assert_eq!(n.source, 20);
}

#[test]
fn visible_notice_stays_until_acknowledged() {
    let mut s = NoticeState::new(MODAL);
    s.notice(1, None, 1, "a", DialogIcon::Info, "one".to_string());
    assert_eq!(s.current_notice(1).unwrap().source, 1);
    s.notice(2, None, 2, "b", DialogIcon::Info, "two".to_string());
    assert_eq!(s.current_notice(2).unwrap().source, 1);
    assert_eq!(s.current_notice(3).unwrap().source, 1);
}

#[test]
fn top_modal_becomes_the_parent_unless_it_is_the_notice_dialog() {
    let mut s = NoticeState::new(MODAL);
    let other = LayerKey { order: 2, id: 77 };
    let own = LayerKey { order: 2, id: MODAL };
    s.notice(1, Some(other), 30, "t", DialogIcon::Info, "m".to_string());
    s.notice(1, Some(own), 31, "t", DialogIcon::Info, "m".to_string());
    let n = s.current_notice(1).unwrap();
    assert_eq!(n.parent, Some(other));
    s.acknowledge(30, false, false);
    assert_eq!(s.current_notice(1).unwrap().parent, None);
}

#[test]
fn registering_the_notice_dialog_itself_is_ignored() {
    let mut s = NoticeState::new(MODAL);
    s.notice(1, None, 40, "t", DialogIcon::Info, "m".to_string());
    s.register_dialog(2, LayerKey { order: 2, id: MODAL });
    assert_eq!(s.current_notice(2).unwrap().source, 40);
}

#[test]
fn duplicate_copies_a_notice() {
    let mut s = NoticeState::new(MODAL);
    s.notice(1, None, 50, "t", DialogIcon::Edit, "m".to_string());
    let n = s.current_notice(1).unwrap();
    let d = n.duplicate();
    assert_eq!(d.source, n.source);
    assert_eq!(d.title, n.title);
    assert_eq!(d.message, n.message);
    assert_eq!(d.icon, n.icon);
}
