//! Account-device power commands: which devices may be woken, shut down or
//! rebooted, and how an accepted request is summarised.
use crate::numeric::{parse_u32, spec_parse_u32};
use crate::text::{chars_of, join, push_decimal, push_str, spec_decimal, str_eq, string_of};
use vstd::prelude::*;

verus! {

#[derive(Clone, Copy, Debug, PartialEq, Eq, Structural)]
pub enum PowerAction {
    Wake,
    Shutdown,
    Reboot,
}

/// A bound device as the power rules read it.
#[derive(Debug)]
pub struct DeviceInfo {
    pub device_id: String,
    /// The name the user gave the device; may be empty.
    pub alias: String,
    /// 1 is Windows, 4 is macOS.
    pub platform: i32,
    /// `"DISCONNECTED"` when the device is offline.
    pub status: String,
    pub version_name: String,
    pub controlled_support: bool,
    pub controllable: bool,
    pub support_wol: bool,
    /// Whether the account service reports the device as connected.
    pub connected: bool,
    /// Why the account service rejects the device id, if it does.
    pub device_id_issue: Option<String>,
    /// How many remote-control participants the device has now.
    pub participants: u32,
}

/// Why a power action is not available for a device.
#[derive(Debug, PartialEq, Eq)]
pub enum PowerIssue {
    DeviceId(String),
    Unsupported,
    NotControllable,
    WakeNeedsOffline,
    NoRemoteWake,
    PlatformWithoutPower,
    VersionUnsupported,
    NeedsOnline,
}

pub open spec fn spec_issue_message(e: PowerIssue) -> Seq<char> {
    match e {
        PowerIssue::DeviceId(message) => message@,
        PowerIssue::Unsupported => "该设备不支持电脑电源操作"@,
        PowerIssue::NotControllable => "该设备未开放远程控制"@,
        PowerIssue::WakeNeedsOffline => "只有离线设备可以发送开机请求"@,
        PowerIssue::NoRemoteWake => "该设备未提供远程开机能力"@,
        PowerIssue::PlatformWithoutPower => "原版能力表未开放该平台的关机和重启"@,
        PowerIssue::VersionUnsupported => "设备版本未知或不支持该电源操作，请刷新或更新被控端"@,
        PowerIssue::NeedsOnline => "只有在线设备可以关机或重启"@,
    }
}

impl PowerIssue {
    pub fn message(&self) -> (m: String)
        ensures
            m@ == spec_issue_message(*self),
    {
        match self {
            PowerIssue::DeviceId(message) => message.clone(),
            PowerIssue::Unsupported => string_of(chars_of("该设备不支持电脑电源操作").as_slice()),
            PowerIssue::NotControllable => string_of(chars_of("该设备未开放远程控制").as_slice()),
            PowerIssue::WakeNeedsOffline => string_of(
                chars_of("只有离线设备可以发送开机请求").as_slice(),
            ),
            PowerIssue::NoRemoteWake => string_of(chars_of("该设备未提供远程开机能力").as_slice()),
            PowerIssue::PlatformWithoutPower => string_of(
                chars_of("原版能力表未开放该平台的关机和重启").as_slice(),
            ),
            PowerIssue::VersionUnsupported => string_of(
                chars_of("设备版本未知或不支持该电源操作，请刷新或更新被控端").as_slice(),
            ),
            PowerIssue::NeedsOnline => string_of(chars_of("只有在线设备可以关机或重启").as_slice()),
        }
    }
}

/// The pieces of `s` between `sep` characters, as `str::split` yields them.
pub open spec fn split_at_char(s: Seq<char>, sep: char) -> Seq<Seq<char>>
    decreases s.len(),
{
    if s.len() == 0 {
        seq![Seq::<char>::empty()]
    } else {
        let parts = split_at_char(s.drop_last(), sep);
        if s.last() == sep {
            parts.push(Seq::empty())
        } else {
            parts.update(parts.len() - 1, parts.last().push(s.last()))
        }
    }
}

proof fn lemma_split_nonempty(s: Seq<char>, sep: char)
    ensures
        split_at_char(s, sep).len() >= 1,
    decreases s.len(),
{
    if s.len() > 0 {
        lemma_split_nonempty(s.drop_last(), sep);
    }
}

/// A version of the form `major.minor.patch[...]` whose parts are all numbers
/// and whose major number is at least 1.
pub open spec fn version_supports_power(version: Seq<char>) -> bool {
    let parts = split_at_char(version, '.');
    &&& parts.len() >= 3
    &&& forall|i: int| 0 <= i < parts.len() ==> (#[trigger] spec_parse_u32(parts[i], 10)) is Some
    &&& spec_parse_u32(parts[0], 10)->Some_0 >= 1
}

/// The first rule a device breaks for `action`, in the order the account
/// service, the platform, the remote-control switch and then the action's own
/// requirements are checked.
pub open spec fn spec_check(action: PowerAction, device: DeviceInfo) -> Result<(), PowerIssue> {
    if device.device_id_issue is Some {
        Err(PowerIssue::DeviceId(device.device_id_issue->Some_0))
    } else if !(device.platform == 1 || device.platform == 4) || !device.controlled_support {
        Err(PowerIssue::Unsupported)
    } else if !device.controllable {
        Err(PowerIssue::NotControllable)
    } else {
        match action {
            PowerAction::Wake => if device.status@ != "DISCONNECTED"@ {
                Err(PowerIssue::WakeNeedsOffline)
            } else if !device.support_wol {
                Err(PowerIssue::NoRemoteWake)
            } else {
                Ok(())
            },
            _ => if device.platform != 1 {
                Err(PowerIssue::PlatformWithoutPower)
            } else if !version_supports_power(device.version_name@) {
                Err(PowerIssue::VersionUnsupported)
            } else if !device.connected {
                Err(PowerIssue::NeedsOnline)
            } else {
                Ok(())
            },
        }
    }
}

fn split_dots(chars: &Vec<char>) -> (parts: Vec<Vec<char>>)
    ensures
        parts@.len() == split_at_char(chars@, '.').len(),
        forall|i: int| 0 <= i < parts@.len() ==> #[trigger] parts@[i]@ == split_at_char(chars@, '.')[i],
{
    let mut parts: Vec<Vec<char>> = Vec::new();
    let mut current: Vec<char> = Vec::new();
    let mut i: usize = 0;
    assert(chars@.take(0) =~= Seq::<char>::empty());
    while i < chars.len()
        invariant
            i <= chars@.len(),
            parts@.len() + 1 == split_at_char(chars@.take(i as int), '.').len(),
            forall|j: int| 0 <= j < parts@.len() ==> #[trigger] parts@[j]@ == split_at_char(chars@.take(i as int), '.')[j],
            current@ == split_at_char(chars@.take(i as int), '.').last(),
        decreases chars@.len() - i,
    {
        let ghost prev = split_at_char(chars@.take(i as int), '.');
        let ghost next_take = chars@.take(i + 1);
        assert(next_take.drop_last() =~= chars@.take(i as int));
        if chars[i] == '.' {
            parts.push(current);
            current = Vec::new();
        } else {
            current.push(chars[i]);
        }
        i += 1;
    }
    assert(chars@.take(chars@.len() as int) =~= chars@);
    parts.push(current);
    parts
}

fn version_supports_power_exec(version: &str) -> (b: bool)
    ensures
        b == version_supports_power(version@),
{
    let chars = chars_of(version);
    let parts = split_dots(&chars);
    if parts.len() < 3 {
        return false;
    }
    let mut i: usize = 0;
    while i < parts.len()
        invariant
            i <= parts@.len(),
            parts@.len() == split_at_char(version@, '.').len(),
            chars@ == version@,
            forall|j: int| 0 <= j < parts@.len() ==> #[trigger] parts@[j]@ == split_at_char(version@, '.')[j],
            forall|j: int| 0 <= j < i ==> (#[trigger] spec_parse_u32(split_at_char(version@, '.')[j], 10)) is Some,
        decreases parts@.len() - i,
    {
        if parse_u32(parts[i].as_slice(), 10).is_none() {
            assert(parts@[i as int]@ == split_at_char(version@, '.')[i as int]);
            return false;
        }
        i += 1;
    }
    match parse_u32(parts[0].as_slice(), 10) {
        Some(major) => major >= 1,
        None => false,
    }
}

impl PowerAction {
    pub fn label(self) -> (s: &'static str)
        ensures
            s@ == match self {
                PowerAction::Wake => "开机"@,
                PowerAction::Shutdown => "关机"@,
                PowerAction::Reboot => "重启"@,
            },
    {
        match self {
            PowerAction::Wake => "开机",
            PowerAction::Shutdown => "关机",
            PowerAction::Reboot => "重启",
        }
    }

    /// Whether `device` accepts this action now; the first unmet rule otherwise.
    pub fn check(self, device: &DeviceInfo) -> (r: Result<(), PowerIssue>)
        ensures
            r == spec_check(self, *device),
    {
        if let Some(issue) = &device.device_id_issue {
            return Err(PowerIssue::DeviceId(issue.clone()));
        }
        if !(device.platform == 1 || device.platform == 4) || !device.controlled_support {
            return Err(PowerIssue::Unsupported);
        }
        if !device.controllable {
            return Err(PowerIssue::NotControllable);
        }
        match self {
            PowerAction::Wake => {
                if !crate::text::str_eq(device.status.as_str(), "DISCONNECTED") {
                    return Err(PowerIssue::WakeNeedsOffline);
                }
                if !device.support_wol {
                    return Err(PowerIssue::NoRemoteWake);
                }
            },
            PowerAction::Shutdown | PowerAction::Reboot => {
                if device.platform != 1 {
                    return Err(PowerIssue::PlatformWithoutPower);
                }
                if !version_supports_power_exec(device.version_name.as_str()) {
                    return Err(PowerIssue::VersionUnsupported);
                }
                if !device.connected {
                    return Err(PowerIssue::NeedsOnline);
                }
            },
        }
        Ok(())
    }
}

/// What the account service reports about an accepted wake request.
#[derive(Clone, Copy, Debug, Default, PartialEq, Eq, Structural)]
pub struct PowerReceipt {
    pub current_device_in_same_network: Option<bool>,
    pub assist_count: Option<u32>,
    pub router_wol: Option<bool>,
}

/// The wake routes a receipt names, in order.
pub open spec fn wake_routes(receipt: PowerReceipt) -> Seq<Seq<char>> {
    (if receipt.current_device_in_same_network == Some(true) {
        seq!["当前设备同网"@]
    } else {
        Seq::empty()
    }) + (match receipt.assist_count {
        Some(count) => seq![spec_decimal(count as nat) + " 台协助设备"@],
        None => Seq::empty(),
    }) + (if receipt.router_wol == Some(true) {
        seq!["路由器唤醒"@]
    } else {
        Seq::empty()
    })
}

/// The route list as appended to the summary: each route preceded by " · ".
pub open spec fn route_tail(parts: Seq<Seq<char>>) -> Seq<char> {
    if parts.len() == 0 {
        Seq::empty()
    } else {
        " · "@ + join(parts, " · "@)
    }
}

proof fn lemma_route_tail_push(parts: Seq<Seq<char>>, item: Seq<char>)
    ensures
        route_tail(parts.push(item)) == route_tail(parts) + " · "@ + item,
{
    let p = parts.push(item);
    assert(p.drop_last() =~= parts);
    if parts.len() == 0 {
        assert(join(p, " · "@) == item);
        assert(route_tail(p) =~= route_tail(parts) + " · "@ + item);
    } else {
        assert(route_tail(p) =~= route_tail(parts) + " · "@ + item);
    }
}

pub open spec fn spec_summary(receipt: PowerReceipt, action: PowerAction) -> Seq<char> {
    if action != PowerAction::Wake {
        "请求已受理，等待设备状态变化"@
    } else if wake_routes(receipt).len() == 0 {
        "开机请求已受理，等待上线"@
    } else {
        "开机请求已受理，等待上线"@ + route_tail(wake_routes(receipt))
    }
}

impl PowerReceipt {
    /// The status line shown after a power request was accepted.
    pub fn summary(&self, action: PowerAction) -> (s: String)
        ensures
            s@ == spec_summary(*self, action),
    {
        if action != PowerAction::Wake {
            return string_of(chars_of("请求已受理，等待设备状态变化").as_slice());
        }
        let ghost routes = wake_routes(*self);
        let mut out: Vec<char> = Vec::new();
        let ghost mut parts: Seq<Seq<char>> = Seq::empty();
        push_str(&mut out, "开机请求已受理，等待上线");
        let ghost base = out@;
        assert(out@ =~= base + route_tail(parts));
        if self.current_device_in_same_network == Some(true) {
            let ghost before = out@;
            push_str(&mut out, " · ");
            push_str(&mut out, "当前设备同网");
            proof {
                lemma_route_tail_push(parts, "当前设备同网"@);
                parts = parts.push("当前设备同网"@);
                assert(out@ =~= base + route_tail(parts));
            }
        }
        if let Some(n) = self.assist_count {
            push_str(&mut out, " · ");
            push_decimal(&mut out, n as u64);
            push_str(&mut out, " 台协助设备");
            proof {
                let item = spec_decimal(n as nat) + " 台协助设备"@;
                lemma_route_tail_push(parts, item);
                parts = parts.push(item);
                assert(out@ =~= base + route_tail(parts));
            }
        }
        if self.router_wol == Some(true) {
            push_str(&mut out, " · ");
            push_str(&mut out, "路由器唤醒");
            proof {
                lemma_route_tail_push(parts, "路由器唤醒"@);
                parts = parts.push("路由器唤醒"@);
                assert(out@ =~= base + route_tail(parts));
            }
        }
        proof {
            assert(parts =~= routes);
            if routes.len() == 0 {
                assert(out@ =~= base);
            }
        }
        string_of(out.as_slice())
    }
}


/// A power request waiting for the user's confirmation, tied to the login it
/// was made under.
pub struct PowerConfirmation {
    pub device: DeviceInfo,
    pub action: PowerAction,
    pub generation: u64,
}

/// Opens the confirmation for `action` on `device` where the device accepts
/// it now, else names the rule it fails.
pub fn begin_power(device: DeviceInfo, action: PowerAction, generation: u64) -> (r: Result<
    PowerConfirmation,
    PowerIssue,
>)
    ensures
        match r {
            Ok(c) => spec_check(action, device) is Ok && c.device == device && c.action == action
                && c.generation == generation,
            Err(e) => spec_check(action, device) == Err::<(), PowerIssue>(e),
        },
{
    match action.check(&device) {
        Ok(()) => Ok(PowerConfirmation { device, action, generation }),
        Err(e) => Err(e),
    }
}

/// What becomes of a pending confirmation after its dialog was shown.
#[derive(Clone, Copy, Debug, PartialEq, Eq, Structural)]
pub enum ConfirmStep {
    /// Send the power request.
    Commit,
    /// Keep asking.
    Keep,
    /// Drop the request.
    Dismiss,
}

impl PowerConfirmation {
    /// A confirmation from an earlier login, or one pending while logging
    /// out, is dropped without being shown.
    pub fn is_current(&self, login_generation: u64, logout_pending: bool) -> (b: bool)
        ensures
            b == (self.generation == login_generation && !logout_pending),
    {
        self.generation == login_generation && !logout_pending
    }
}

/// The step after the dialog: confirming commits; otherwise the request
/// stays until it is cancelled or the dialog is closed.
pub fn confirmation_step(commit: bool, cancel: bool, closed: bool) -> (s: ConfirmStep)
    ensures
        s == (if commit {
            ConfirmStep::Commit
        } else if !cancel && !closed {
            ConfirmStep::Keep
        } else {
            ConfirmStep::Dismiss
        }),
{
    if commit {
        ConfirmStep::Commit
    } else if !cancel && !closed {
        ConfirmStep::Keep
    } else {
        ConfirmStep::Dismiss
    }
}

pub open spec fn spec_label(action: PowerAction) -> Seq<char> {
    match action {
        PowerAction::Wake => "开机"@,
        PowerAction::Shutdown => "关机"@,
        PowerAction::Reboot => "重启"@,
    }
}

/// The confirmation question: `"{label}这台设备？"`.
pub fn confirm_title(action: PowerAction) -> (s: String)
    ensures
        s@ == spec_label(action) + "这台设备？"@,
{
    let mut out = chars_of(action.label());
    push_str(&mut out, "这台设备？");
    string_of(out.as_slice())
}

/// The confirming button: `"确认{label}"`.
pub fn confirm_button(action: PowerAction) -> (s: String)
    ensures
        s@ == "确认"@ + spec_label(action),
{
    let mut out = chars_of("确认");
    push_str(&mut out, action.label());
    string_of(out.as_slice())
}

/// How long a power request has been waited on: `"已等待 {elapsed} 秒"`.
pub fn waiting_caption(elapsed: u64) -> (s: String)
    ensures
        s@ == "已等待 "@ + spec_decimal(elapsed as nat) + " 秒"@,
{
    let mut out = chars_of("已等待 ");
    push_decimal(&mut out, elapsed);
    push_str(&mut out, " 秒");
    string_of(out.as_slice())
}

/// `"设备当前有 {count} 个远控参与者。"`, shown before shutting down or
/// rebooting a device that others are controlling.
pub fn participants_caption(count: u32) -> (s: String)
    ensures
        s@ == "设备当前有 "@ + spec_decimal(count as nat) + " 个远控参与者。"@,
{
    let mut out = chars_of("设备当前有 ");
    push_decimal(&mut out, count as u64);
    push_str(&mut out, " 个远控参与者。");
    string_of(out.as_slice())
}

/// Whether powering off `device_id` ends the viewing session first: there
/// is a session, and it is on that device or on a device not yet known.
pub fn ends_current_view(session_device: Option<Option<&str>>, device_id: &str) -> (b: bool)
    ensures
        b == match session_device {
            None => false,
            Some(None) => true,
            Some(Some(id)) => id@ == device_id@,
        },
{
    match session_device {
        None => false,
        Some(None) => true,
        Some(Some(id)) => str_eq(id, device_id),
    }
}

/// Only Windows devices (platform 1) are ever shut down or rebooted; macOS
/// and every other platform are refused.
pub proof fn lemma_power_off_only_windows(action: PowerAction, device: DeviceInfo)
    requires
        action != PowerAction::Wake,
        device.platform != 1,
    ensures
        spec_check(action, device) is Err,
{
}

/// Waking asks for an offline device that offers remote wake; a device that
/// passes the check is reported as disconnected.
pub proof fn lemma_wake_only_offline(device: DeviceInfo)
    requires
        spec_check(PowerAction::Wake, device) is Ok,
    ensures
        device.status@ == "DISCONNECTED"@,
        device.support_wol,
        device.controllable,
{
}

/// Waking is allowed exactly for a device the account service accepts, on
/// Windows or macOS, open to remote control, offline, and offering remote
/// wake.
pub proof fn lemma_wake_allowed_iff(device: DeviceInfo)
    ensures
        spec_check(PowerAction::Wake, device) is Ok <==> (device.device_id_issue is None && (
        device.platform == 1 || device.platform == 4) && device.controlled_support
            && device.controllable && device.status@ == "DISCONNECTED"@ && device.support_wol),
{
}

/// Shutting down or rebooting is allowed exactly for a device the account
/// service accepts, on Windows, open to remote control, with a known version
/// of major 1 or more, and online.
pub proof fn lemma_power_off_allowed_iff(action: PowerAction, device: DeviceInfo)
    requires
        action != PowerAction::Wake,
    ensures
        spec_check(action, device) is Ok <==> (device.device_id_issue is None && device.platform
            == 1 && device.controlled_support && device.controllable && version_supports_power(
            device.version_name@,
        ) && device.connected),
{
}

/// The status line after an accepted request: shutdown and reboot say the
/// request waits for the device; a wake says it waits for the device to come
/// online, followed by " · " and each wake route the receipt names, in the
/// order same network, assisting devices, router.
pub proof fn lemma_summary_text(receipt: PowerReceipt, action: PowerAction)
    ensures
        action != PowerAction::Wake ==> spec_summary(receipt, action) == "请求已受理，等待设备状态变化"@,
        action == PowerAction::Wake ==> spec_summary(receipt, action) == "开机请求已受理，等待上线"@ + (
        if receipt.current_device_in_same_network == Some(true) {
            " · "@ + "当前设备同网"@
        } else {
            Seq::empty()
        }) + (match receipt.assist_count {
            Some(n) => " · "@ + spec_decimal(n as nat) + " 台协助设备"@,
            None => Seq::empty(),
        }) + (if receipt.router_wol == Some(true) {
            " · "@ + "路由器唤醒"@
        } else {
            Seq::empty()
        }),
{
    if action == PowerAction::Wake {
        let a: Seq<Seq<char>> = if receipt.current_device_in_same_network == Some(true) {
            seq!["当前设备同网"@]
        } else {
            Seq::empty()
        };
        let b: Seq<Seq<char>> = match receipt.assist_count {
            Some(n) => seq![spec_decimal(n as nat) + " 台协助设备"@],
            None => Seq::empty(),
        };
        let c: Seq<Seq<char>> = if receipt.router_wol == Some(true) {
            seq!["路由器唤醒"@]
        } else {
            Seq::empty()
        };
        let e: Seq<Seq<char>> = Seq::empty();
        assert(route_tail(e) =~= Seq::<char>::empty());
        lemma_route_tail_append(e, a);
        assert(e + a =~= a);
        lemma_route_tail_append(a, b);
        lemma_route_tail_append(a + b, c);
        assert(wake_routes(receipt) =~= a + b + c);
    }
}

/// Appending at most one route adds it after " · ".
proof fn lemma_route_tail_append(parts: Seq<Seq<char>>, more: Seq<Seq<char>>)
    requires
        more.len() <= 1,
    ensures
        route_tail(parts + more) == route_tail(parts) + if more.len() == 1 {
            " · "@ + more[0]
        } else {
            Seq::<char>::empty()
        },
{
    if more.len() == 1 {
        lemma_route_tail_push(parts, more[0]);
        assert(parts.push(more[0]) =~= parts + more);
        assert(route_tail(parts) + " · "@ + more[0] =~= route_tail(parts) + (" · "@ + more[0]));
    } else {
        assert(parts + more =~= parts);
        assert(route_tail(parts) + Seq::<char>::empty() =~= route_tail(parts));
    }
}

} // verus!
