//! The steps of the plugin's operations. Each step takes the screen state
//! and what the host answered, and gives the new state and the next host
//! call to make; the caller makes the call and hands the answer back.
use vstd::prelude::*;
use crate::input::{
    input_error_text,
    input_is_clean,
    input_model,
    input_splits_cleanly,
    nat_digits,
    nat_digits_exec,
    parse_totp_input,
};
use crate::json::{
    Json,
    check_is_ready,
    check_push_success,
    event_value,
    extract_event_value,
    find_backup_list,
    find_count_value,
    json_parse,
    message_backup,
    message_count,
    message_is_ready,
    message_push_ok,
    parse_json,
};
use crate::payload::{format_totp_list_to_text, push_payload, push_payload_json, totp_list_text};
use crate::qr::{decode_qr_image, qr_image_result};
use crate::text::{chars_of, eq_str, string_of, trim, trim_chars};
use crate::totp::TotpModel;
use crate::ui::{PendingAction, UiModel, UiState};

verus! {

/// A device that the host lists.
pub struct Device {
    pub name: String,
    pub addr: String,
}

/// The contents of a [`Device`].
pub ghost struct DeviceModel {
    pub name: Seq<char>,
    pub addr: Seq<char>,
}

impl View for Device {
    type V = DeviceModel;

    open spec fn view(&self) -> DeviceModel {
        DeviceModel { name: self.name@, addr: self.addr@ }
    }
}

/// Which operation runs.
#[derive(Clone, Copy, Debug, PartialEq, Eq, Structural)]
pub enum FlowKind {
    /// Checks whether the watch application is installed.
    InstallCheck,
    /// Asks the watch for its account count.
    Query,
    /// Asks the watch for its accounts.
    Backup,
    /// Sends accounts to the watch.
    Push,
}

/// An operation in progress.
pub struct Flow {
    pub kind: FlowKind,
    /// The device the operation talks to, once listed.
    pub target: Option<Device>,
    /// The position of the watch application in the application list.
    pub app_index: usize,
    /// The message that a push sends.
    pub payload: String,
}

/// The contents of a [`Flow`].
pub ghost struct FlowModel {
    pub kind: FlowKind,
    pub target: Option<DeviceModel>,
    pub app_index: usize,
    pub payload: Seq<char>,
}

impl View for Flow {
    type V = FlowModel;

    open spec fn view(&self) -> FlowModel {
        FlowModel {
            kind: self.kind,
            target: match self.target {
                Some(d) => Some(d@),
                None => None,
            },
            app_index: self.app_index,
            payload: self.payload@,
        }
    }
}

/// What the host answered.
pub enum FlowEvent {
    /// The first connected device, if any.
    Devices(Option<Device>),
    /// The package names of the device's applications, none when listing
    /// failed.
    AppList(Option<Vec<String>>),
    /// Whether listening to the watch application was granted.
    Registered(bool),
    /// The watch application was launched.
    Launched,
    /// Whether the message was sent.
    Sent(bool),
}

/// The contents of a [`FlowEvent`].
pub ghost enum FlowEventModel {
    Devices(Option<DeviceModel>),
    AppList(Option<Seq<Seq<char>>>),
    Registered(bool),
    Launched,
    Sent(bool),
}

impl View for FlowEvent {
    type V = FlowEventModel;

    open spec fn view(&self) -> FlowEventModel {
        match self {
            FlowEvent::Devices(d) => FlowEventModel::Devices(
                match d {
                    Some(d) => Some(d@),
                    None => None,
                },
            ),
            FlowEvent::AppList(l) => FlowEventModel::AppList(
                match l {
                    Some(l) => Some(l@.map_values(|s: String| s@)),
                    None => None,
                },
            ),
            FlowEvent::Registered(ok) => FlowEventModel::Registered(*ok),
            FlowEvent::Launched => FlowEventModel::Launched,
            FlowEvent::Sent(ok) => FlowEventModel::Sent(*ok),
        }
    }
}

/// The next host call.
pub enum FlowAction {
    /// List the connected devices.
    ListDevices,
    /// List the applications of the device at this address.
    ListApps(String),
    /// Listen to the watch application of the device at this address.
    Register(String),
    /// Launch the application at this position of the list on the device.
    Launch(String, usize),
    /// Send this message to the watch application of the device.
    Send(String, String),
    /// The operation is over.
    Done,
}

/// The contents of a [`FlowAction`].
pub ghost enum FlowActionModel {
    ListDevices,
    ListApps(Seq<char>),
    Register(Seq<char>),
    Launch(Seq<char>, usize),
    Send(Seq<char>, Seq<char>),
    Done,
}

impl View for FlowAction {
    type V = FlowActionModel;

    open spec fn view(&self) -> FlowActionModel {
        match self {
            FlowAction::ListDevices => FlowActionModel::ListDevices,
            FlowAction::ListApps(a) => FlowActionModel::ListApps(a@),
            FlowAction::Register(a) => FlowActionModel::Register(a@),
            FlowAction::Launch(a, i) => FlowActionModel::Launch(a@, *i),
            FlowAction::Send(a, m) => FlowActionModel::Send(a@, m@),
            FlowAction::Done => FlowActionModel::Done,
        }
    }
}

/// The position of the watch application among the package names.
pub open spec fn first_package(names: Seq<Seq<char>>) -> Option<int>
    decreases names.len(),
{
    if names.len() == 0 {
        None
    } else {
        match first_package(names.drop_last()) {
            Some(i) => Some(i),
            None => if names.last() == "com.xw.mibandtotp"@ {
                Some(names.len() - 1)
            } else {
                None
            },
        }
    }
}

/// The request for the account count.
pub open spec fn query_request() -> Seq<char> {
    "{\"action\":\"query_status\",\"requestId\":\"account_count\"}"@
}

/// The request for the accounts.
pub open spec fn backup_request() -> Seq<char> {
    "{\"action\":\"backup_request\"}"@
}

/// The message that asks the watch application for its accounts.
pub fn backup_request_message() -> (r: String)
    ensures
        r@ == backup_request(),
{
    "{\"action\":\"backup_request\"}".to_string()
}

/// The state with a new status line and busy switch.
pub open spec fn busy_with(s: UiModel, status: Seq<char>, busy: bool) -> UiModel {
    UiModel { status, busy, ..s }
}

/// The state with a new status line.
pub open spec fn status_with(s: UiModel, status: Seq<char>) -> UiModel {
    UiModel { status, ..s }
}

/// One step of an operation: the new state, the new operation, the next
/// host call, and whether the status line was set (the screen is then
/// rendered if it has an element).
pub open spec fn flow_spec(s: UiModel, f: FlowModel, e: FlowEventModel) -> (
    UiModel,
    FlowModel,
    FlowActionModel,
    bool,
) {
    let done = FlowActionModel::Done;
    match e {
        FlowEventModel::Devices(None) => if f.kind == FlowKind::InstallCheck {
            (status_with(s, "未连接手环，无法检测手环端应用"@), f, done, true)
        } else {
            (busy_with(s, "未找到已连接设备"@, false), f, done, true)
        },
        FlowEventModel::Devices(Some(d)) => {
            let f2 = FlowModel { target: Some(d), ..f };
            if f.kind == FlowKind::Push {
                (
                    busy_with(s, "正在检查 "@ + d.name + " 上的快应用..."@, true),
                    f2,
                    FlowActionModel::ListApps(d.addr),
                    true,
                )
            } else {
                (s, f2, FlowActionModel::ListApps(d.addr), false)
            }
        },
        FlowEventModel::AppList(None) => match f.target {
            None => (s, f, done, false),
            Some(d) => if f.kind == FlowKind::InstallCheck {
                (status_with(s, d.name + "：获取手环端应用列表失败"@), f, done, true)
            } else {
                (busy_with(s, "获取快应用列表失败"@, false), f, done, true)
            },
        },
        FlowEventModel::AppList(Some(names)) => match f.target {
            None => (s, f, done, false),
            Some(d) => if f.kind == FlowKind::InstallCheck {
                if first_package(names) is Some {
                    (
                        busy_with(s, d.name + "：手环端应用已安装，正在自动查询手环账号数量..."@, true),
                        FlowModel { kind: FlowKind::Query, target: None, ..f },
                        FlowActionModel::ListDevices,
                        true,
                    )
                } else {
                    (status_with(s, d.name + "：手环端应用未安装"@), f, done, true)
                }
            } else {
                match first_package(names) {
                    None => (busy_with(s, "未在手环上找到验证器快应用"@, false), f, done, true),
                    Some(i) => (
                        s,
                        FlowModel { app_index: i as usize, ..f },
                        FlowActionModel::Register(d.addr),
                        false,
                    ),
                }
            },
        },
        FlowEventModel::Registered(ok) => match f.target {
            None => (s, f, done, false),
            Some(d) => if f.kind == FlowKind::InstallCheck {
                (s, f, done, false)
            } else if !ok {
                (
                    busy_with(
                        s,
                        "监听接收失败：请确保在 AstroBox 中允许了该插件的 interconnect 权限"@,
                        false,
                    ),
                    f,
                    done,
                    true,
                )
            } else if f.kind == FlowKind::Query {
                (
                    UiModel { pending_action: Some(PendingAction::Query), ..s },
                    f,
                    FlowActionModel::Launch(d.addr, f.app_index),
                    false,
                )
            } else if f.kind == FlowKind::Backup {
                (
                    UiModel { pending_action: Some(PendingAction::Backup), ..s },
                    f,
                    FlowActionModel::Launch(d.addr, f.app_index),
                    false,
                )
            } else {
                (
                    busy_with(s, "正在启动快应用..."@, true),
                    f,
                    FlowActionModel::Launch(d.addr, f.app_index),
                    true,
                )
            },
        },
        FlowEventModel::Launched => match f.target {
            None => (s, f, done, false),
            Some(d) => if f.kind == FlowKind::Query {
                (s, f, FlowActionModel::Send(d.addr, query_request()), false)
            } else if f.kind == FlowKind::Backup {
                (s, f, FlowActionModel::Send(d.addr, backup_request()), false)
            } else if f.kind == FlowKind::Push {
                (
                    UiModel {
                        pending_action: Some(PendingAction::Push),
                        pending_payload: Some(f.payload),
                        status: "正在推送数据..."@,
                        busy: true,
                        ..s
                    },
                    f,
                    FlowActionModel::Send(d.addr, f.payload),
                    true,
                )
            } else {
                (s, f, done, false)
            },
        },
        FlowEventModel::Sent(ok) => if f.kind == FlowKind::Query {
            if ok {
                (busy_with(s, "已发送查询请求，等待手环端回传账号数量"@, false), f, done, true)
            } else {
                (busy_with(s, "发送查询请求失败"@, false), f, done, true)
            }
        } else if f.kind == FlowKind::Backup {
            if ok {
                (busy_with(s, "已发送备份请求，等待手环端回传数据..."@, false), f, done, true)
            } else {
                (busy_with(s, "发送备份请求失败"@, false), f, done, true)
            }
        } else if f.kind == FlowKind::Push {
            if ok {
                (busy_with(s, "已推送数据，等待手环确认..."@, true), f, done, true)
            } else {
                (busy_with(s, "发送失败"@, false), f, done, true)
            }
        } else {
            (s, f, done, false)
        },
    }
}

/// The text `a`, then `b`, then `c`.
fn concat3(a: &str, b: &Vec<char>, c: &str) -> (r: String)
    ensures
        r@ == a@ + b@ + c@,
{
    let mut out = chars_of(a);
    let mut i: usize = 0;
    let ghost start = out@;
    while i < b.len()
        invariant
            i <= b.len(),
            out@ == start + b@.take(i as int),
        decreases b.len() - i,
    {
        out.push(b[i]);
        i = i + 1;
        assert(out@ =~= start + b@.take(i as int));
    }
    assert(b@.take(b.len() as int) =~= b@);
    let cc = chars_of(c);
    let mut k: usize = 0;
    let ghost mid = out@;
    while k < cc.len()
        invariant
            k <= cc.len(),
            out@ == mid + cc@.take(k as int),
        decreases cc.len() - k,
    {
        out.push(cc[k]);
        k = k + 1;
        assert(out@ =~= mid + cc@.take(k as int));
    }
    assert(cc@.take(cc.len() as int) =~= cc@);
    string_of(&out)
}

/// The position of the watch application among the package names.
pub fn find_app(names: &Vec<String>) -> (r: Option<usize>)
    ensures
        r matches Some(i) ==> first_package(names@.map_values(|s: String| s@)) == Some(i as int),
        r is None ==> first_package(names@.map_values(|s: String| s@)) is None,
{
    let ghost ns = names@.map_values(|s: String| s@);
    let mut i: usize = 0;
    assert(ns.take(0) =~= Seq::<Seq<char>>::empty());
    while i < names.len()
        invariant
            i <= names.len(),
            ns == names@.map_values(|s: String| s@),
            first_package(ns.take(i as int)) is None,
        decreases names.len() - i,
    {
        assert(ns.take(i + 1).drop_last() =~= ns.take(i as int));
        assert(ns.take(i + 1).last() == names@[i as int]@);
        let c = chars_of(names[i].as_str());
        if eq_str(&c, "com.xw.mibandtotp") {
            proof {
                lemma_first_package_prefix(ns, i as int + 1);
            }
            return Some(i);
        }
        i = i + 1;
    }
    assert(ns.take(names.len() as int) =~= ns);
    None
}

proof fn lemma_first_package_prefix(ns: Seq<Seq<char>>, k: int)
    requires
        0 <= k <= ns.len(),
        first_package(ns.take(k)) is Some,
    ensures
        first_package(ns) == first_package(ns.take(k)),
    decreases ns.len() - k,
{
    if k < ns.len() {
        assert(ns.take(k + 1).drop_last() =~= ns.take(k));
        assert(first_package(ns.take(k + 1)) == first_package(ns.take(k)));
        lemma_first_package_prefix(ns, k + 1);
    } else {
        assert(ns.take(k) =~= ns);
    }
}

/// One step of an operation; the result is the next host call and whether
/// to render the screen.
pub fn flow_step(state: &mut UiState, flow: &mut Flow, event: FlowEvent) -> (r: (FlowAction, bool))
    ensures
        final(state)@ == flow_spec(old(state)@, old(flow)@, event@).0,
        final(flow)@ == flow_spec(old(state)@, old(flow)@, event@).1,
        r.0@ == flow_spec(old(state)@, old(flow)@, event@).2,
        r.1 == (flow_spec(old(state)@, old(flow)@, event@).3 && old(state).root_element_id is Some),
{
    let root = state.root_element_id.is_some();
    match event {
        FlowEvent::Devices(None) => {
            if flow.kind == FlowKind::InstallCheck {
                state.set_status("未连接手环，无法检测手环端应用".to_string());
            } else {
                state.set_busy("未找到已连接设备".to_string(), false);
            }
            (FlowAction::Done, root)
        },
        FlowEvent::Devices(Some(d)) => {
            let addr = d.addr.clone();
            let render = if flow.kind == FlowKind::Push {
                let name = chars_of(d.name.as_str());
                state.set_busy(concat3("正在检查 ", &name, " 上的快应用..."), true);
                root
            } else {
                false
            };
            flow.target = Some(d);
            (FlowAction::ListApps(addr), render)
        },
        FlowEvent::AppList(None) => {
            match &flow.target {
                None => (FlowAction::Done, false),
                Some(d) => {
                    if flow.kind == FlowKind::InstallCheck {
                        let name = chars_of(d.name.as_str());
                        state.set_status(concat3("", &name, "：获取手环端应用列表失败"));
                        proof {
                            assert(""@ + d.name@ =~= d.name@) by {
                                reveal_strlit("");
                            }
                        }
                    } else {
                        state.set_busy("获取快应用列表失败".to_string(), false);
                    }
                    (FlowAction::Done, root)
                },
            }
        },
        FlowEvent::AppList(Some(names)) => {
            let addr = match &flow.target {
                None => {
                    return (FlowAction::Done, false);
                },
                Some(d) => d.addr.clone(),
            };
            let found = find_app(&names);
            if flow.kind == FlowKind::InstallCheck {
                let name = match &flow.target {
                    Some(d) => chars_of(d.name.as_str()),
                    None => Vec::new(),
                };
                if found.is_some() {
                    state.set_busy(concat3("", &name, "：手环端应用已安装，正在自动查询手环账号数量..."), true);
                    flow.kind = FlowKind::Query;
                    flow.target = None;
                    proof {
                        reveal_strlit("");
                    }
                    (FlowAction::ListDevices, root)
                } else {
                    state.set_status(concat3("", &name, "：手环端应用未安装"));
                    proof {
                        reveal_strlit("");
                    }
                    (FlowAction::Done, root)
                }
            } else {
                match found {
                    None => {
                        state.set_busy("未在手环上找到验证器快应用".to_string(), false);
                        (FlowAction::Done, root)
                    },
                    Some(i) => {
                        flow.app_index = i;
                        (FlowAction::Register(addr), false)
                    },
                }
            }
        },
        FlowEvent::Registered(ok) => {
            let addr = match &flow.target {
                None => {
                    return (FlowAction::Done, false);
                },
                Some(d) => d.addr.clone(),
            };
            if flow.kind == FlowKind::InstallCheck {
                (FlowAction::Done, false)
            } else if !ok {
                state.set_busy(
                    "监听接收失败：请确保在 AstroBox 中允许了该插件的 interconnect 权限".to_string(),
                    false,
                );
                (FlowAction::Done, root)
            } else if flow.kind == FlowKind::Query {
                state.pending_action = Some(PendingAction::Query);
                (FlowAction::Launch(addr, flow.app_index), false)
            } else if flow.kind == FlowKind::Backup {
                state.pending_action = Some(PendingAction::Backup);
                (FlowAction::Launch(addr, flow.app_index), false)
            } else {
                state.set_busy("正在启动快应用...".to_string(), true);
                (FlowAction::Launch(addr, flow.app_index), root)
            }
        },
        FlowEvent::Launched => {
            let addr = match &flow.target {
                None => {
                    return (FlowAction::Done, false);
                },
                Some(d) => d.addr.clone(),
            };
            if flow.kind == FlowKind::Query {
                (
                    FlowAction::Send(
                        addr,
                        "{\"action\":\"query_status\",\"requestId\":\"account_count\"}".to_string(),
                    ),
                    false,
                )
            } else if flow.kind == FlowKind::Backup {
                (FlowAction::Send(addr, backup_request_message()), false)
            } else if flow.kind == FlowKind::Push {
                state.pending_action = Some(PendingAction::Push);
                state.pending_payload = Some(flow.payload.clone());
                state.set_busy("正在推送数据...".to_string(), true);
                (FlowAction::Send(addr, flow.payload.clone()), root)
            } else {
                (FlowAction::Done, false)
            }
        },
        FlowEvent::Sent(ok) => {
            if flow.kind == FlowKind::Query {
                if ok {
                    state.set_busy("已发送查询请求，等待手环端回传账号数量".to_string(), false);
                } else {
                    state.set_busy("发送查询请求失败".to_string(), false);
                }
                (FlowAction::Done, root)
            } else if flow.kind == FlowKind::Backup {
                if ok {
                    state.set_busy("已发送备份请求，等待手环端回传数据...".to_string(), false);
                } else {
                    state.set_busy("发送备份请求失败".to_string(), false);
                }
                (FlowAction::Done, root)
            } else if flow.kind == FlowKind::Push {
                if ok {
                    state.set_busy("已推送数据，等待手环确认...".to_string(), true);
                } else {
                    state.set_busy("发送失败".to_string(), false);
                }
                (FlowAction::Done, root)
            } else {
                (FlowAction::Done, false)
            }
        },
    }
}

/// Starts asking the watch for its account count, with the given status
/// line; the result is the operation, its first host call and whether to
/// render the screen.
pub fn start_query(state: &mut UiState, status_msg: String) -> (r: (Flow, FlowAction, bool))
    ensures
        final(state)@ == busy_with(old(state)@, status_msg@, true),
        r.0@.kind == FlowKind::Query && r.0@.target is None,
        r.1 is ListDevices,
        r.2 == old(state).root_element_id is Some,
{
    let render = state.set_busy(status_msg, true);
    (Flow { kind: FlowKind::Query, target: None, app_index: 0, payload: String::new() }, FlowAction::ListDevices, render)
}

/// Starts asking the watch for its account count.
pub fn query_wear_account_count(state: &mut UiState) -> (r: (Flow, FlowAction, bool))
    ensures
        final(state)@ == busy_with(old(state)@, "正在查询手环端账号数量..."@, true),
        r.0@.kind == FlowKind::Query && r.0@.target is None,
        r.1 is ListDevices,
        r.2 == old(state).root_element_id is Some,
{
    start_query(state, "正在查询手环端账号数量...".to_string())
}

/// Starts asking the watch for its accounts.
pub fn backup_wear_keys(state: &mut UiState) -> (r: (Flow, FlowAction, bool))
    ensures
        final(state)@ == busy_with(old(state)@, "正在连接设备并备份密钥..."@, true),
        r.0@.kind == FlowKind::Backup && r.0@.target is None,
        r.1 is ListDevices,
        r.2 == old(state).root_element_id is Some,
{
    let render = state.set_busy("正在连接设备并备份密钥...".to_string(), true);
    (Flow { kind: FlowKind::Backup, target: None, app_index: 0, payload: String::new() }, FlowAction::ListDevices, render)
}

/// Starts checking whether the watch application is installed.
pub fn check_wear_app_installation() -> (r: (Flow, FlowAction))
    ensures
        r.0@.kind == FlowKind::InstallCheck && r.0@.target is None,
        r.1 is ListDevices,
{
    (Flow { kind: FlowKind::InstallCheck, target: None, app_index: 0, payload: String::new() }, FlowAction::ListDevices)
}

/// Starts pushing the accounts that `input` gives: when it gives none, the
/// status line tells why and nothing starts; the result is the operation
/// (if any) and whether to render the screen.
pub fn push_input(state: &mut UiState, input: &str) -> (r: (Option<(Flow, FlowAction)>, bool))
    requires
        input_splits_cleanly(input@),
    ensures
        input_model(input@) matches Err(e) ==> r.0 is None && final(state)@ == busy_with(
            old(state)@,
            "解析失败: "@ + input_error_text(e),
            false,
        ),
        input_model(input@) matches Ok(l) ==> r.0 matches Some((f, a)) && a is ListDevices
            && f@.kind == FlowKind::Push && f@.target is None && f@.payload == push_payload(l)
            && final(state)@ == busy_with(old(state)@, "正在查找已连接设备..."@, true),
        r.1 == old(state).root_element_id is Some,
{
    match parse_totp_input(input) {
        Ok(list) => {
            let payload = push_payload_json(list.as_slice());
            let render = state.set_busy("正在查找已连接设备...".to_string(), true);
            (Some((Flow { kind: FlowKind::Push, target: None, app_index: 0, payload }, FlowAction::ListDevices)), render)
        },
        Err(e) => {
            let msg = chars_of(e.message().as_str());
            let render = state.set_busy(concat3("解析失败: ", &msg, ""), false);
            proof {
                reveal_strlit("");
                assert(input_error_text(e) + ""@ =~= input_error_text(e));
            }
            (None, render)
        },
    }
}

/// Starts pushing the accounts that `input` gives, as [`push_input`] does,
/// when reading the input splits no character while matching the URI
/// prefixes; otherwise nothing changes and the result is none.
pub fn push_clean_input(state: &mut UiState, input: &str) -> (r: Option<(Option<(Flow, FlowAction)>, bool)>)
    ensures
        !input_splits_cleanly(input@) ==> r is None && final(state)@ == old(state)@,
        input_splits_cleanly(input@) ==> r is Some,
        r matches Some((started, render)) ==> {
            &&& input_model(input@) matches Err(e) ==> started is None && final(state)@ == busy_with(
                old(state)@,
                "解析失败: "@ + input_error_text(e),
                false,
            )
            &&& input_model(input@) matches Ok(l) ==> started matches Some((f, a)) && a is ListDevices
                && f@.kind == FlowKind::Push && f@.target is None && f@.payload == push_payload(l)
                && final(state)@ == busy_with(old(state)@, "正在查找已连接设备..."@, true)
            &&& render == old(state).root_element_id is Some
        },
{
    if input_is_clean(input) {
        Some(push_input(state, input))
    } else {
        None
    }
}

/// A user event on the screen.
#[derive(Clone, Copy, Debug, PartialEq, Eq, Structural)]
pub enum UiEvent {
    Input,
    Change,
    PointerUp,
    Click,
    Other,
}

/// The operation that a user event starts.
#[derive(Clone, Copy, Debug, PartialEq, Eq, Structural)]
pub enum UiCommand {
    Nothing,
    SendInput,
    EditInput,
    Clipboard,
    QrImage,
    QueryCount,
    BackupKeys,
}

/// Whether the element is one of the six buttons.
pub open spec fn is_button(id: Seq<char>) -> bool {
    ||| id == "send_totp"@
    ||| id == "edit_input"@
    ||| id == "send_clipboard"@
    ||| id == "send_qr_image"@
    ||| id == "query_wear_count"@
    ||| id == "backup_wear_keys"@
}

/// What a user event does: the new state, the operation it starts, and
/// whether the status line was set. Input in the text box is kept; a click
/// on a button starts its operation unless one runs.
pub open spec fn ui_event_spec(s: UiModel, event: UiEvent, id: Seq<char>, payload: Seq<char>) -> (
    UiModel,
    UiCommand,
    bool,
) {
    if (event == UiEvent::Input || event == UiEvent::Change) && id == "totp_input"@ {
        (UiModel { input_text: event_value(payload), ..s }, UiCommand::Nothing, false)
    } else if event == UiEvent::Click {
        if is_button(id) && s.busy {
            (s, UiCommand::Nothing, false)
        } else if id == "send_totp"@ {
            (status_with(s, "已收到点击事件：推送输入内容"@), UiCommand::SendInput, true)
        } else if id == "edit_input"@ {
            (s, UiCommand::EditInput, false)
        } else if id == "send_clipboard"@ {
            (status_with(s, "已收到点击事件：读取剪贴板"@), UiCommand::Clipboard, true)
        } else if id == "send_qr_image"@ {
            (status_with(s, "已收到点击事件：选择二维码图片"@), UiCommand::QrImage, true)
        } else if id == "query_wear_count"@ {
            (s, UiCommand::QueryCount, false)
        } else if id == "backup_wear_keys"@ {
            (s, UiCommand::BackupKeys, false)
        } else {
            (s, UiCommand::Nothing, false)
        }
    } else {
        (s, UiCommand::Nothing, false)
    }
}

/// Takes a user event: the result is the operation to start and whether to
/// render the screen.
pub fn ui_event_processor(state: &mut UiState, event: UiEvent, event_id: &str, event_payload: &str) -> (r: (UiCommand, bool))
    ensures
        final(state)@ == ui_event_spec(old(state)@, event, event_id@, event_payload@).0,
        r.0 == ui_event_spec(old(state)@, event, event_id@, event_payload@).1,
        r.1 == (ui_event_spec(old(state)@, event, event_id@, event_payload@).2
            && old(state).root_element_id is Some),
{
    let id = chars_of(event_id);
    let root = state.root_element_id.is_some();
    if (event == UiEvent::Input || event == UiEvent::Change) && eq_str(&id, "totp_input") {
        let input = extract_event_value(event_payload);
        state.remember_input_text(input);
        return (UiCommand::Nothing, false);
    }
    if event != UiEvent::Click {
        return (UiCommand::Nothing, false);
    }
    let send = eq_str(&id, "send_totp");
    let edit = eq_str(&id, "edit_input");
    let clip = eq_str(&id, "send_clipboard");
    let qr = eq_str(&id, "send_qr_image");
    let query = eq_str(&id, "query_wear_count");
    let backup = eq_str(&id, "backup_wear_keys");
    if (send || edit || clip || qr || query || backup) && state.is_busy() {
        (UiCommand::Nothing, false)
    } else if send {
        state.set_status("已收到点击事件：推送输入内容".to_string());
        (UiCommand::SendInput, root)
    } else if edit {
        (UiCommand::EditInput, false)
    } else if clip {
        state.set_status("已收到点击事件：读取剪贴板".to_string());
        (UiCommand::Clipboard, root)
    } else if qr {
        state.set_status("已收到点击事件：选择二维码图片".to_string());
        (UiCommand::QrImage, root)
    } else if query {
        (UiCommand::QueryCount, false)
    } else if backup {
        (UiCommand::BackupKeys, false)
    } else {
        (UiCommand::Nothing, false)
    }
}

/// What a message of the watch asks the plugin to send.
#[derive(Clone, Copy, Debug, PartialEq, Eq, Structural)]
pub enum InterconnectAction {
    Nothing,
    /// Send the backup request to the first connected device.
    SendBackupRequest,
    /// Send the pending push message to the first connected device.
    SendPushPayload,
}

/// What a message of the watch does, given the JSON value it holds: the
/// new state, what to send, and whether the status line was set. When the
/// watch application says it is ready, a pending backup or push is sent;
/// otherwise a backup list fills the input box, a push confirmation ends
/// the push, and an account count is shown unless an answer was pending.
pub open spec fn interconnect_value_spec(s: UiModel, v: Json) -> (
    UiModel,
    InterconnectAction,
    bool,
) {
    let pending = s.pending_action;
    let s1 = if message_is_ready(v) && pending is Some {
        UiModel { pending_action: None, ..s }
    } else {
        s
    };
    if message_is_ready(v) && pending == Some(PendingAction::Backup) {
        (s1, InterconnectAction::SendBackupRequest, false)
    } else if message_is_ready(v) && pending == Some(PendingAction::Push) {
        (s1, InterconnectAction::SendPushPayload, false)
    } else if message_backup(v) is Some {
        let l = message_backup(v)->0;
        (
            UiModel {
                input_text: totp_list_text(l),
                status: "备份成功：已从手环导入 "@ + nat_digits(l.len()) + " 个账号"@,
                busy: false,
                pending_action: None,
                pending_payload: None,
                ..s1
            },
            InterconnectAction::Nothing,
            true,
        )
    } else if message_push_ok(v) {
        (
            UiModel {
                status: "推送成功：手环端已接收并导入账号"@,
                busy: false,
                pending_action: None,
                pending_payload: None,
                ..s1
            },
            InterconnectAction::Nothing,
            true,
        )
    } else if message_count(v) is Some && pending is None {
        (
            busy_with(s1, "手环端账号数量："@ + nat_digits(message_count(v)->0 as nat), false),
            InterconnectAction::Nothing,
            true,
        )
    } else {
        (s1, InterconnectAction::Nothing, false)
    }
}

/// What a message of the watch does: nothing when it is not JSON, else
/// what its value does.
pub open spec fn interconnect_spec(s: UiModel, payload: Seq<char>) -> (
    UiModel,
    InterconnectAction,
    bool,
) {
    match json_parse(payload) {
        None => (s, InterconnectAction::Nothing, false),
        Some(v) => interconnect_value_spec(s, v),
    }
}

/// Takes the JSON value of a message of the watch: the result is what to
/// send and whether to render the screen.
pub fn handle_interconnect_value(state: &mut UiState, parsed: &Json) -> (r: (InterconnectAction, bool))
    ensures
        final(state)@ == interconnect_value_spec(old(state)@, *parsed).0,
        r.0 == interconnect_value_spec(old(state)@, *parsed).1,
        r.1 == (interconnect_value_spec(old(state)@, *parsed).2 && old(
            state,
        ).root_element_id is Some),
{
    let root = state.root_element_id.is_some();
    let is_ready = check_is_ready(parsed);
    let count = find_count_value(parsed);
    let list = find_backup_list(parsed);
    let is_push_success = check_push_success(parsed);
    let pending = state.pending_action;
    if is_ready {
        match pending {
            Some(action) => {
                state.pending_action = None;
                if action == PendingAction::Backup {
                    return (InterconnectAction::SendBackupRequest, false);
                } else if action == PendingAction::Push {
                    return (InterconnectAction::SendPushPayload, false);
                }
            },
            None => {},
        }
    }
    match list {
        Some(list) => {
            let n = list.len();
            let text = format_totp_list_to_text(list.as_slice());
            let digits = nat_digits_exec(n as u64);
            state.set_input_text_and_status(text, concat3("备份成功：已从手环导入 ", &digits, " 个账号"));
            state.clear_pending_action();
            (InterconnectAction::Nothing, root)
        },
        None => {
            if is_push_success {
                state.set_busy("推送成功：手环端已接收并导入账号".to_string(), false);
                state.clear_pending_action();
                (InterconnectAction::Nothing, root)
            } else {
                match count {
                    Some(c) => {
                        if pending.is_none() {
                            let digits = nat_digits_exec(c);
                            state.set_busy(concat3("手环端账号数量：", &digits, ""), false);
                            proof {
                                reveal_strlit("");
                                assert("手环端账号数量："@ + nat_digits(c as nat) + ""@ =~= "手环端账号数量："@
                                    + nat_digits(c as nat));
                            }
                            (InterconnectAction::Nothing, root)
                        } else {
                            (InterconnectAction::Nothing, false)
                        }
                    },
                    None => (InterconnectAction::Nothing, false),
                }
            }
        },
    }
}

/// Takes a message of the watch: the result is what to send and whether to
/// render the screen.
pub fn handle_interconnect_message(state: &mut UiState, event_payload: &str) -> (r: (
    InterconnectAction,
    bool,
))
    ensures
        final(state)@ == interconnect_spec(old(state)@, event_payload@).0,
        r.0 == interconnect_spec(old(state)@, event_payload@).1,
        r.1 == (interconnect_spec(old(state)@, event_payload@).2 && old(
            state,
        ).root_element_id is Some),
{
    match parse_json(event_payload) {
        Some(v) => handle_interconnect_value(state, &v),
        None => (InterconnectAction::Nothing, false),
    }
}

/// The text that the edit dialog opens with: the input, or a hint when the
/// input is blank.
pub fn edit_dialog_content(state: &UiState) -> (r: String)
    ensures
        r@ == if trim(state.input_text@).len() == 0 {
            "粘贴 otpauth://totp/... 或 Google Authenticator 导出链接"@
        } else {
            state.input_text@
        },
{
    let c = chars_of(state.input_text.as_str());
    if trim_chars(&c).len() == 0 {
        "粘贴 otpauth://totp/... 或 Google Authenticator 导出链接".to_string()
    } else {
        state.input_text.clone()
    }
}

/// Takes the answer of the edit dialog: saving keeps the text; the result
/// says whether to render the screen.
pub fn edit_input(state: &mut UiState, clicked_btn_id: &str, input_result: String) -> (render: bool)
    ensures
        clicked_btn_id@ == "save"@ ==> final(state)@ == (UiModel {
            input_text: input_result@,
            status: "已保存输入内容，确认后点击推送输入内容"@,
            busy: false,
            ..old(state)@
        }),
        clicked_btn_id@ != "save"@ ==> final(state)@ == status_with(old(state)@, "已取消输入"@),
        render == old(state).root_element_id is Some,
{
    let id = chars_of(clicked_btn_id);
    if eq_str(&id, "save") {
        state.set_input_text_and_status(input_result, "已保存输入内容，确认后点击推送输入内容".to_string())
    } else {
        state.set_status("已取消输入".to_string())
    }
}

/// Whether pushing asks for the text in a dialog first (the input is
/// blank).
pub fn push_needs_dialog(state: &UiState) -> (r: bool)
    ensures
        r == (trim(state.input_text@).len() == 0),
{
    let c = chars_of(state.input_text.as_str());
    trim_chars(&c).len() == 0
}

/// Takes the answer of the push dialog: the text to push, or none when the
/// dialog was cancelled (the status line then says so); the second part
/// says whether to render the screen.
pub fn input_and_push(state: &mut UiState, clicked_btn_id: &str, input_result: String) -> (r: (
    Option<String>,
    bool,
))
    ensures
        clicked_btn_id@ == "send"@ ==> r.0 == Some(input_result) && final(state)@ == old(state)@
            && !r.1,
        clicked_btn_id@ != "send"@ ==> r.0 is None && final(state)@ == busy_with(
            old(state)@,
            "已取消"@,
            false,
        ) && r.1 == old(state).root_element_id is Some,
{
    let id = chars_of(clicked_btn_id);
    if eq_str(&id, "send") {
        (Some(input_result), false)
    } else {
        let render = state.set_busy("已取消".to_string(), false);
        (None, render)
    }
}

/// Starts reading the clipboard; the result says whether to render.
pub fn start_clipboard(state: &mut UiState) -> (render: bool)
    ensures
        final(state)@ == busy_with(old(state)@, "正在读取剪贴板..."@, true),
        render == old(state).root_element_id is Some,
{
    state.set_busy("正在读取剪贴板...".to_string(), true)
}

/// Takes the clipboard text (none when reading failed); the result says
/// whether to render.
pub fn clipboard_to_input(state: &mut UiState, text: Option<String>) -> (render: bool)
    ensures
        text matches Some(t) ==> final(state)@ == (UiModel {
            input_text: t@,
            status: "已从剪贴板填入输入框，确认后点击推送输入内容"@,
            busy: false,
            ..old(state)@
        }),
        text is None ==> final(state)@ == busy_with(old(state)@, "读取剪贴板失败"@, false),
        render == old(state).root_element_id is Some,
{
    match text {
        Some(t) => state.set_input_text_and_status(
            t,
            "已从剪贴板填入输入框，确认后点击推送输入内容".to_string(),
        ),
        None => state.set_busy("读取剪贴板失败".to_string(), false),
    }
}

/// Starts picking a QR image; the result says whether to render.
pub fn start_qr_image(state: &mut UiState) -> (render: bool)
    ensures
        final(state)@ == busy_with(old(state)@, "请选择二维码图片..."@, true),
        render == old(state).root_element_id is Some,
{
    state.set_busy("请选择二维码图片...".to_string(), true)
}

/// Takes the picked image file: its QR text fills the input box, or the
/// status line tells why there is none; the result says whether to render.
pub fn qr_image_to_input(state: &mut UiState, data: &[u8]) -> (render: bool)
    ensures
        render == old(state).root_element_id is Some,
        qr_image_result(data@) matches Ok(t) ==> final(state)@ == (UiModel {
            input_text: t,
            status: "已从二维码填入输入框，确认后点击推送输入内容"@,
            busy: false,
            ..old(state)@
        }),
        qr_image_result(data@) matches Err(msg) ==> final(state)@ == busy_with(
            old(state)@,
            "二维码解析失败: "@ + msg,
            false,
        ),
{
    match decode_qr_image(data) {
        Ok(text) => state.set_input_text_and_status(
            text,
            "已从二维码填入输入框，确认后点击推送输入内容".to_string(),
        ),
        Err(error) => {
            let msg = chars_of(error.message().as_str());
            proof {
                reveal_strlit("");
                assert("二维码解析失败: "@ + msg@ + ""@ =~= "二维码解析失败: "@ + msg@);
            }
            state.set_busy(concat3("二维码解析失败: ", &msg, ""), false)
        },
    }
}

/// The state once the screen is rendered into the element `id`: the
/// status line says that the watch is being checked when it was empty, and
/// the installation check counts as started.
pub open spec fn rendered(s: UiModel, id: Seq<char>) -> UiModel {
    UiModel {
        root_element_id: Some(id),
        status: if s.status.len() == 0 {
            "正在检测手环端应用..."@
        } else {
            s.status
        },
        install_check_started: true,
        ..s
    }
}

/// Records the element that the screen is rendered into; the status line
/// says that the watch is being checked when it is empty. The result says
/// whether the installation check is to start (the first time only).
pub fn render_main_ui(state: &mut UiState, element_id: String) -> (start_check: bool)
    ensures
        final(state)@ == rendered(old(state)@, element_id@),
        start_check == !old(state).install_check_started,
{
    state.root_element_id = Some(element_id);
    if state.status.as_str().is_empty() {
        state.status = "正在检测手环端应用...".to_string();
    }
    if state.install_check_started {
        false
    } else {
        state.install_check_started = true;
        true
    }
}

/// The installation check starts once: after a first rendering, any
/// later rendering finds it started.
pub proof fn law_install_check_starts_once(s: UiModel, first: Seq<char>, later: Seq<char>)
    ensures
        rendered(s, first).install_check_started,
        rendered(rendered(s, first), later).install_check_started,
        rendered(rendered(s, first), later).input_text == s.input_text,
{
}

/// While an operation runs, a click on a button changes nothing and starts
/// nothing.
pub proof fn law_busy_ignores_buttons(s: UiModel, id: Seq<char>, payload: Seq<char>)
    requires
        s.busy,
        is_button(id),
    ensures
        ui_event_spec(s, UiEvent::Click, id, payload) == (s, UiCommand::Nothing, false),
{
}

/// No step of an operation touches the input box, the element the screen
/// is rendered into, or whether the installation check started.
pub proof fn law_flow_keeps_input(s: UiModel, f: FlowModel, e: FlowEventModel)
    ensures
        flow_spec(s, f, e).0.input_text == s.input_text,
        flow_spec(s, f, e).0.root_element_id == s.root_element_id,
        flow_spec(s, f, e).0.install_check_started == s.install_check_started,
{
}

/// A step that ends a query, a backup or a push (its device found, for the
/// steps after the listing of devices) leaves no operation running, except
/// a push whose message was sent: it waits for the watch's confirmation.
pub proof fn law_ended_operation_not_busy(s: UiModel, f: FlowModel, e: FlowEventModel)
    requires
        f.kind != FlowKind::InstallCheck,
        e is Devices || f.target is Some,
        flow_spec(s, f, e).2 is Done,
        !(f.kind == FlowKind::Push && e == FlowEventModel::Sent(true)),
    ensures
        !flow_spec(s, f, e).0.busy,
{
}

/// A backup list replaces the input box: after a message that carries a
/// backup list `l` (and does not release a pending backup or push), the
/// input text is the text of `l`, one URI per account, whatever the input
/// box held before; nothing is left pending and no operation runs.
pub proof fn law_backup_replaces_input(s: UiModel, payload: Seq<char>, v: Json, l: Seq<TotpModel>)
    requires
        json_parse(payload) == Some(v),
        message_backup(v) == Some(l),
        !(message_is_ready(v) && (s.pending_action == Some(PendingAction::Backup)
            || s.pending_action == Some(PendingAction::Push))),
    ensures
        interconnect_spec(s, payload).0.input_text == totp_list_text(l),
        interconnect_spec(s, payload).0.pending_action is None,
        !interconnect_spec(s, payload).0.busy,
        interconnect_spec(s, payload).1 == InterconnectAction::Nothing,
{
}

} // verus!
