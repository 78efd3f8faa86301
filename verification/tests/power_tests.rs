use openuuyc::power::{
    begin_power, confirm_button, confirm_title, confirmation_step, ends_current_view,
    participants_caption, waiting_caption, ConfirmStep, DeviceInfo, PowerAction, PowerIssue,
    PowerReceipt,
};

fn device() -> DeviceInfo {
    DeviceInfo {
        device_id: "123456789".to_string(),
        alias: "书房".to_string(),
        platform: 1,
        status: "CONNECTED".to_string(),
        version_name: "4.2.1".to_string(),
        controlled_support: true,
        controllable: true,
        support_wol: true,
        connected: true,
        device_id_issue: None,
        participants: 0,
    }
}

#[test]
fn labels_name_the_actions() {
    assert_eq!(PowerAction::Wake.label(), "开机");
    assert_eq!(PowerAction::Shutdown.label(), "关机");
    assert_eq!(PowerAction::Reboot.label(), "重启");
}

#[test]
fn online_windows_device_may_be_shut_down_and_rebooted() {
    let d = device();
    assert_eq!(PowerAction::Shutdown.check(&d), Ok(()));
    assert_eq!(PowerAction::Reboot.check(&d), Ok(()));
    assert_eq!(PowerAction::Wake.check(&d), Err(PowerIssue::WakeNeedsOffline));
}

#[test]
fn offline_device_with_wake_support_may_be_woken() {
    let mut d = device();
    d.status = "DISCONNECTED".to_string();
    d.connected = false;
    assert_eq!(PowerAction::Wake.check(&d), Ok(()));
    assert_eq!(PowerAction::Shutdown.check(&d), Err(PowerIssue::NeedsOnline));
    d.support_wol = false;
    assert_eq!(PowerAction::Wake.check(&d), Err(PowerIssue::NoRemoteWake));
}

#[test]
fn rules_are_checked_in_order() {
    let mut d = device();
    d.device_id_issue = Some("设备号无效".to_string());
    d.platform = 2;
    assert_eq!(
        PowerAction::Shutdown.check(&d),
        Err(PowerIssue::DeviceId("设备号无效".to_string()))
    );
    d.device_id_issue = None;
    assert_eq!(PowerAction::Shutdown.check(&d), Err(PowerIssue::Unsupported));
    d.platform = 4;
    d.controllable = false;
    assert_eq!(PowerAction::Shutdown.check(&d), Err(PowerIssue::NotControllable));
    d.controllable = true;
    assert_eq!(PowerAction::Shutdown.check(&d), Err(PowerIssue::PlatformWithoutPower));
    d.controlled_support = false;
    assert_eq!(PowerAction::Wake.check(&d), Err(PowerIssue::Unsupported));
}

#[test]
fn power_needs_a_numeric_version_of_major_one_or_more() {
    let mut d = device();
    for (version, ok) in [
        ("1.0.0", true),
        ("4.2.1.9", true),
        ("0.9.9", false),
        ("4.2", false),
        ("4.x.1", false),
        ("", false),
        ("4..1", false),
    ] {
        d.version_name = version.to_string();
        let expected = if ok { Ok(()) } else { Err(PowerIssue::VersionUnsupported) };
        assert_eq!(PowerAction::Reboot.check(&d), expected, "{version}");
    }
}

#[test]
fn issue_messages() {
    assert_eq!(PowerIssue::Unsupported.message(), "该设备不支持电脑电源操作");
    assert_eq!(PowerIssue::NeedsOnline.message(), "只有在线设备可以关机或重启");
    assert_eq!(PowerIssue::DeviceId("x".to_string()).message(), "x");
}

#[test]
fn wake_summary_lists_the_routes() {
    let r = PowerReceipt {
        current_device_in_same_network: Some(true),
        assist_count: Some(2),
        router_wol: Some(true),
    };
    assert_eq!(
        r.summary(PowerAction::Wake),
        "开机请求已受理，等待上线 · 当前设备同网 · 2 台协助设备 · 路由器唤醒"
    );
    assert_eq!(
        PowerReceipt::default().summary(PowerAction::Wake),
        "开机请求已受理，等待上线"
    );
    assert_eq!(r.summary(PowerAction::Reboot), "请求已受理，等待设备状态变化");
    let only_assist = PowerReceipt {
        current_device_in_same_network: Some(false),
        assist_count: Some(0),
        router_wol: None,
    };
    assert_eq!(
        only_assist.summary(PowerAction::Wake),
        "开机请求已受理，等待上线 · 0 台协助设备"
    );
}

#[test]
fn begin_power_opens_a_confirmation_for_an_available_action() {
    let c = begin_power(device(), PowerAction::Reboot, 7).ok().expect("available");
    assert_eq!(c.action, PowerAction::Reboot);
    assert_eq!(c.generation, 7);
    assert!(c.is_current(7, false));
    assert!(!c.is_current(8, false));
    assert!(!c.is_current(7, true));
    assert_eq!(
        begin_power(device(), PowerAction::Wake, 7).err(),
        Some(PowerIssue::WakeNeedsOffline)
    );
}

#[test]
fn confirmation_steps() {
    assert_eq!(confirmation_step(true, false, false), ConfirmStep::Commit);
    assert_eq!(confirmation_step(false, false, false), ConfirmStep::Keep);
    assert_eq!(confirmation_step(false, true, false), ConfirmStep::Dismiss);
    assert_eq!(confirmation_step(false, false, true), ConfirmStep::Dismiss);
}

#[test]
fn confirmation_texts() {
    assert_eq!(confirm_title(PowerAction::Shutdown), "关机这台设备？");
    assert_eq!(confirm_button(PowerAction::Wake), "确认开机");
    assert_eq!(waiting_caption(125), "已等待 125 秒");
}

#[test]
fn participants_are_counted_in_the_warning() {
    assert_eq!(participants_caption(2), "设备当前有 2 个远控参与者。");
}

#[test]
fn powering_off_the_viewed_device_ends_the_view_first() {
    assert!(ends_current_view(Some(Some("123")), "123"));
    assert!(!ends_current_view(Some(Some("456")), "123"));
    assert!(ends_current_view(Some(None), "123"));
    assert!(!ends_current_view(None, "123"));
}
