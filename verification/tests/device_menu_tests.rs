use openuuyc::device_picker::{
    pick_devices, row_label, unavailable, PickerState, RefreshError, Unavailable,
};
use openuuyc::power::DeviceInfo;

fn device(id: &str, alias: &str) -> DeviceInfo {
    DeviceInfo {
        device_id: id.to_string(),
        alias: alias.to_string(),
        platform: 1,
        status: "CONNECTED".to_string(),
        version_name: "4.0.0".to_string(),
        controlled_support: true,
        controllable: true,
        support_wol: false,
        connected: true,
        device_id_issue: None,
        participants: 0,
    }
}

fn ids(list: &[DeviceInfo]) -> Vec<&str> {
    list.iter().map(|d| d.device_id.as_str()).collect()
}

#[test]
fn menu_lists_the_viewed_device_first_then_by_alias() {
    let list = vec![
        device("300", "b"),
        device("200", "a"),
        device("100", "z"),
        device("400", "a"),
    ];
    let picked = pick_devices(list, "999", "100");
    assert_eq!(ids(&picked), vec!["100", "200", "400", "300"]);
}

#[test]
fn menu_drops_unusable_devices() {
    let mut offline = device("1", "x");
    offline.connected = false;
    let mut linux = device("2", "x");
    linux.platform = 2;
    let this = device("3", "x");
    let mut rejected = device("4", "x");
    rejected.device_id_issue = Some("bad".to_string());
    let mut mac = device("5", "x");
    mac.platform = 4;
    let picked = pick_devices(vec![offline, linux, this, rejected, mac], "3", "0");
    assert_eq!(ids(&picked), vec!["5"]);
}

#[test]
fn menu_keeps_one_of_a_device_listed_twice() {
    let list = vec![device("7", "same"), device("7", "same"), device("8", "other")];
    let picked = pick_devices(list, "0", "0");
    assert_eq!(ids(&picked), vec!["8", "7"]);
}

#[test]
fn menu_orders_text_by_code_point() {
    let list = vec![device("2", "书房"), device("1", "Z"), device("3", "a")];
    let picked = pick_devices(list, "0", "0");
    assert_eq!(ids(&picked), vec!["1", "3", "2"]);
}

#[test]
fn rows_tell_apart_devices_with_the_same_alias() {
    let list = vec![device("123456789", "书房"), device("987654321", "书房"), device("55555", "")];
    assert_eq!(row_label(&list, &list[0]), "书房 · 6789");
    assert_eq!(row_label(&list, &list[2]), "55555");
}

#[test]
fn rows_say_why_a_device_is_unavailable() {
    let mut d = device("1", "x");
    assert_eq!(unavailable(&d, false), None);
    d.participants = 2;
    assert_eq!(unavailable(&d, false), Some(Unavailable::InUse));
    assert_eq!(unavailable(&d, true), None);
    d.controllable = false;
    assert_eq!(unavailable(&d, true), Some(Unavailable::NotConnectable));
}

#[test]
fn refresh_and_switch_states() {
    let mut s = PickerState::new();
    assert!(s.begin_refresh());
    assert!(!s.begin_refresh());
    s.finish_refresh(Err(RefreshError::Timeout), "0", "0");
    assert!(!s.loading);
    assert_eq!(s.error.as_deref(), Some("获取设备超时，请重试"));
    assert!(s.begin_refresh());
    assert_eq!(s.error, None);
    s.finish_refresh(Err(RefreshError::Service("网络错误".to_string())), "0", "0");
    assert_eq!(s.error.as_deref(), Some("获取设备失败：网络错误"));
    assert!(s.begin_refresh());
    s.finish_refresh(Ok(vec![device("1", "a")]), "0", "0");
    assert_eq!(s.devices.len(), 1);
    assert!(s.begin_switch());
    assert!(!s.begin_switch());
    assert!(!s.begin_refresh());
    s.send_failed();
    assert!(!s.switching);
    assert_eq!(s.error.as_deref(), Some("连接已结束，请重新打开观看窗口"));
    assert!(s.begin_switch());
    s.failed("设备已离线".to_string());
    assert!(!s.switching);
    assert_eq!(s.error.as_deref(), Some("设备已离线"));
}

#[test]
fn repeated_aliases_show_the_last_four_bytes_of_the_id() {
    let list = vec![device("设备1234", "pc"), device("设备9999", "pc")];
    assert_eq!(row_label(&list, &list[0]), "pc · 1234");
    let wide = vec![device("ab设", "pc"), device("cd", "pc")];
    assert_eq!(row_label(&wide, &wide[0]), "pc · b设");
}

#[test]
fn only_enabled_rows_start_a_switch() {
    let mut s = PickerState::new();
    let other = device("2", "b");
    assert!(!s.click_row(&device("1", "a"), "1"));
    let mut busy = device("3", "c");
    busy.participants = 1;
    assert!(!s.click_row(&busy, "1"));
    let mut closed = device("4", "d");
    closed.controllable = false;
    assert!(!s.click_row(&closed, "1"));
    assert!(s.begin_refresh());
    assert!(!s.row_enabled(&other, "1"));
    assert!(!s.click_row(&other, "1"));
    assert!(!s.switching);
    s.finish_refresh(Ok(vec![]), "0", "0");
    assert!(s.row_enabled(&other, "1"));
    assert!(s.click_row(&other, "1"));
    assert!(s.switching && s.error.is_none());
    assert!(!s.click_row(&other, "1"));
}
