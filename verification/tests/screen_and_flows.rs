use miband_totp::flow::{
    backup_request_message, backup_wear_keys, check_wear_app_installation, clipboard_to_input, edit_dialog_content, edit_input, find_app,
    flow_step, handle_interconnect_message, handle_interconnect_value, input_and_push, push_input, push_needs_dialog, query_wear_account_count,
    push_clean_input, qr_image_to_input, render_main_ui, start_clipboard, start_qr_image, ui_event_processor, Device, Flow, FlowAction,
    FlowEvent, FlowKind, InterconnectAction, UiCommand, UiEvent,
};
use miband_totp::json::Json;
use miband_totp::ui::{record_external_event, Element, ElementKind, PendingAction, UiState, PACKAGE_NAME};

fn rendered_state() -> UiState {
    let mut s = UiState::new();
    render_main_ui(&mut s, "root".to_string());
    s
}

fn device() -> Device {
    Device { name: "Band 9".to_string(), addr: "AA:BB".to_string() }
}

fn apps(with_watch_app: bool) -> FlowEvent {
    let mut names = vec!["com.other".to_string()];
    if with_watch_app {
        names.push(PACKAGE_NAME.to_string());
    }
    names.push("com.more".to_string());
    FlowEvent::AppList(Some(names))
}

#[test]
fn a_new_state() {
    let s = UiState::new();
    assert!(s.root_element_id.is_none());
    assert_eq!(s.input_text, "");
    assert_eq!(s.status, "");
    assert!(!s.busy && !s.install_check_started);
    assert!(s.pending_action.is_none() && s.pending_payload.is_none());
    assert!(s.rerender().is_none());
}

#[test]
fn rendering_starts_the_install_check_once() {
    let mut s = UiState::new();
    assert!(render_main_ui(&mut s, "root".to_string()));
    assert_eq!(s.status, "正在检测手环端应用...");
    assert_eq!(s.rerender().as_deref(), Some("root"));
    s.status = "kept".to_string();
    assert!(!render_main_ui(&mut s, "root2".to_string()));
    assert_eq!(s.status, "kept");
    assert_eq!(s.root_element_id.as_deref(), Some("root2"));
}

fn content(e: &Element) -> Option<&str> {
    e.content.as_deref()
}

fn bound(e: &Element) -> Vec<(UiEvent, &str)> {
    e.bindings.iter().map(|(ev, id)| (*ev, id.as_str())).collect()
}

#[test]
fn main_screen_texts() {
    let mut s = UiState::new();
    let ui = s.build_main_ui();
    assert_eq!(ui.root.kind, ElementKind::Div);
    assert!(ui.root.style.flex_column && ui.root.style.width_full);
    assert_eq!(ui.root.style.padding, Some(16));
    assert_eq!(ui.children.len(), 9);
    assert!(content(&ui.children[0]).is_none());
    assert_eq!(content(&ui.children[1]), Some("推送输入内容"));
    assert_eq!(content(&ui.children[7]), Some("当前未载入文本。"));
    assert_eq!(content(&ui.children[8]), Some("请先在 AstroBox 中连接手环，并确保已安装 TOTP 快应用"));
    assert!(!ui.children[1].style.disabled && !ui.children[1].style.dimmed);
    s.input_text = "abc 字".to_string();
    s.busy = true;
    s.status = "x".to_string();
    let ui = s.build_main_ui();
    assert_eq!(content(&ui.children[0]), Some("abc 字"));
    for b in 1..6 {
        assert_eq!(content(&ui.children[b]), Some("处理中..."));
        assert!(ui.children[b].style.disabled && ui.children[b].style.dimmed);
    }
    assert_eq!(content(&ui.children[7]), Some("当前已载入 5 个字符。"));
    assert_eq!(content(&ui.children[8]), Some("x"));
    s.input_text = "   ".to_string();
    assert!(s.build_main_ui().children[0].content.is_none());
}

#[test]
fn main_screen_after_setting_the_input() {
    let mut s = UiState::new();
    s.set_input_text_and_status("验证".to_string(), String::new());
    let ui = s.build_main_ui();
    assert_eq!(ui.root.kind, ElementKind::Div);
    assert_eq!(ui.children.len(), 9);
    assert_eq!(ui.children[0].kind, ElementKind::Textarea);
    assert_eq!(content(&ui.children[0]), Some("验证"));
    assert_eq!(ui.children[7].kind, ElementKind::P);
    assert_eq!(content(&ui.children[7]), Some("当前已载入 2 个字符。"));
    assert_eq!(ui.children[8].kind, ElementKind::P);
    assert_eq!(content(&ui.children[8]), Some("请先在 AstroBox 中连接手环，并确保已安装 TOTP 快应用"));
}

#[test]
fn main_screen_tree_and_bindings() {
    let ui = UiState::new().build_main_ui();
    let kinds: Vec<ElementKind> = ui.children.iter().map(|e| e.kind).collect();
    assert_eq!(
        kinds,
        vec![
            ElementKind::Textarea,
            ElementKind::Button,
            ElementKind::Button,
            ElementKind::Button,
            ElementKind::Button,
            ElementKind::Button,
            ElementKind::P,
            ElementKind::P,
            ElementKind::P,
        ]
    );
    assert_eq!(bound(&ui.children[0]), vec![(UiEvent::Input, "totp_input"), (UiEvent::Change, "totp_input")]);
    let ids = ["send_totp", "edit_input", "send_clipboard", "send_qr_image", "backup_wear_keys"];
    for (i, id) in ids.iter().enumerate() {
        assert_eq!(bound(&ui.children[i + 1]), vec![(UiEvent::Click, *id), (UiEvent::PointerUp, *id)]);
    }
    for p in 6..9 {
        assert!(ui.children[p].bindings.is_empty());
    }
    assert!(ui.root.bindings.is_empty());
    assert_eq!(
        content(&ui.children[6]),
        Some("支持普通 TOTP URI、Google Authenticator 导出 URI。二维码图片需从“文件”中选择。")
    );
    let labels: Vec<&str> = (1..6).map(|i| content(&ui.children[i]).unwrap()).collect();
    assert_eq!(labels, vec!["推送输入内容", "手动输入/编辑", "读取剪贴板", "选择二维码图片文件", "直接从手环备份密钥"]);
    let colors: Vec<&str> = (1..6).map(|i| ui.children[i].style.bg.as_deref().unwrap()).collect();
    assert_eq!(colors, vec!["#2563EB", "#374151", "#059669", "#7C3AED", "#D97706"]);
    assert_eq!(ui.children[1].style.margin_top, Some(14));
    assert_eq!(ui.children[2].style.margin_top, Some(10));
    let input = &ui.children[0].style;
    assert_eq!((input.height, input.padding, input.radius, input.size), (Some(156), Some(14), Some(8), Some(16)));
    assert_eq!(input.border.as_ref().map(|(w, c)| (*w, c.as_str())), Some((1, "#6B7280")));
    assert!(input.autofocus);
    assert_eq!(input.tab_index, Some(0));
    assert_eq!((ui.children[8].style.size, ui.children[8].style.margin_top), (Some(13), Some(12)));
}

#[test]
fn user_events() {
    let mut s = rendered_state();
    assert_eq!(ui_event_processor(&mut s, UiEvent::Input, "totp_input", "{\"value\":\"typed\"}"), (UiCommand::Nothing, false));
    assert_eq!(s.input_text, "typed");
    assert_eq!(ui_event_processor(&mut s, UiEvent::Click, "send_totp", ""), (UiCommand::SendInput, true));
    assert_eq!(s.status, "已收到点击事件：推送输入内容");
    assert_eq!(ui_event_processor(&mut s, UiEvent::Click, "edit_input", ""), (UiCommand::EditInput, false));
    assert_eq!(ui_event_processor(&mut s, UiEvent::Click, "send_clipboard", ""), (UiCommand::Clipboard, true));
    assert_eq!(ui_event_processor(&mut s, UiEvent::Click, "send_qr_image", ""), (UiCommand::QrImage, true));
    assert_eq!(ui_event_processor(&mut s, UiEvent::Click, "query_wear_count", ""), (UiCommand::QueryCount, false));
    assert_eq!(ui_event_processor(&mut s, UiEvent::Click, "backup_wear_keys", ""), (UiCommand::BackupKeys, false));
    assert_eq!(ui_event_processor(&mut s, UiEvent::Click, "unknown", ""), (UiCommand::Nothing, false));
    assert_eq!(ui_event_processor(&mut s, UiEvent::PointerUp, "send_totp", ""), (UiCommand::Nothing, false));
}

#[test]
fn clicks_while_busy_are_ignored() {
    let mut s = rendered_state();
    s.busy = true;
    s.status = "working".to_string();
    for id in ["send_totp", "edit_input", "send_clipboard", "send_qr_image", "query_wear_count", "backup_wear_keys"] {
        assert_eq!(ui_event_processor(&mut s, UiEvent::Click, id, ""), (UiCommand::Nothing, false));
        assert_eq!(s.status, "working");
        assert!(s.busy);
    }
    // Typing still updates the input box.
    ui_event_processor(&mut s, UiEvent::Change, "totp_input", "new");
    assert_eq!(s.input_text, "new");
}

#[test]
fn dialogs_and_clipboard() {
    let mut s = rendered_state();
    assert!(push_needs_dialog(&s));
    assert_eq!(edit_dialog_content(&s), "粘贴 otpauth://totp/... 或 Google Authenticator 导出链接");
    assert!(edit_input(&mut s, "save", "text".to_string()));
    assert_eq!(s.input_text, "text");
    assert_eq!(s.status, "已保存输入内容，确认后点击推送输入内容");
    assert_eq!(edit_dialog_content(&s), "text");
    assert!(!push_needs_dialog(&s));
    edit_input(&mut s, "cancel", "ignored".to_string());
    assert_eq!(s.input_text, "text");
    assert_eq!(s.status, "已取消输入");

    assert_eq!(input_and_push(&mut s, "send", "t".to_string()), (Some("t".to_string()), false));
    assert_eq!(input_and_push(&mut s, "close", "t".to_string()), (None, true));
    assert_eq!(s.status, "已取消");

    assert!(start_clipboard(&mut s));
    assert!(s.busy);
    clipboard_to_input(&mut s, Some("clip".to_string()));
    assert_eq!(s.input_text, "clip");
    assert!(!s.busy);
    start_clipboard(&mut s);
    clipboard_to_input(&mut s, None);
    assert_eq!(s.status, "读取剪贴板失败");
    assert_eq!(s.input_text, "clip");
    assert!(!s.busy);
}

#[test]
fn qr_image_into_input() {
    let mut s = rendered_state();
    assert!(start_qr_image(&mut s));
    assert_eq!(s.status, "请选择二维码图片...");
    qr_image_to_input(&mut s, b"not an image");
    assert!(s.status.starts_with("二维码解析失败: 图片读取失败: "));
    assert!(!s.busy);
}

#[test]
fn push_flow() {
    let mut s = rendered_state();
    s.input_text = "kept".to_string();
    let (started, render) = push_input(&mut s, "otpauth://totp/Issuer:account@example.com?secret=SECRET&issuer=Issuer");
    assert!(render);
    let (mut flow, action) = started.unwrap();
    assert!(matches!(action, FlowAction::ListDevices));
    assert_eq!(flow.kind, FlowKind::Push);
    assert_eq!(
        flow.payload,
        "{\"list\":[{\"name\":\"Issuer\",\"usr\":\"account@example.com\",\"key\":\"SECRET\",\"algorithm\":\"SHA1\",\"digits\":6,\"period\":30}]}"
    );
    assert_eq!(s.status, "正在查找已连接设备...");
    assert!(s.busy);

    let (a, _) = flow_step(&mut s, &mut flow, FlowEvent::Devices(Some(device())));
    assert!(matches!(a, FlowAction::ListApps(ref addr) if addr == "AA:BB"));
    assert_eq!(s.status, "正在检查 Band 9 上的快应用...");
    let (a, _) = flow_step(&mut s, &mut flow, apps(true));
    assert!(matches!(a, FlowAction::Register(ref addr) if addr == "AA:BB"));
    assert_eq!(flow.app_index, 1);
    let (a, _) = flow_step(&mut s, &mut flow, FlowEvent::Registered(true));
    assert!(matches!(a, FlowAction::Launch(ref addr, 1) if addr == "AA:BB"));
    assert_eq!(s.status, "正在启动快应用...");
    let (a, _) = flow_step(&mut s, &mut flow, FlowEvent::Launched);
    assert!(matches!(a, FlowAction::Send(_, ref m) if *m == flow.payload));
    assert_eq!(s.pending_action, Some(PendingAction::Push));
    assert_eq!(s.pending_payload.as_deref(), Some(flow.payload.as_str()));
    let (a, _) = flow_step(&mut s, &mut flow, FlowEvent::Sent(true));
    assert!(matches!(a, FlowAction::Done));
    assert_eq!(s.status, "已推送数据，等待手环确认...");
    assert!(s.busy);
    // No step of the operation touched the input box or the screen's element.
    assert_eq!(s.input_text, "kept");
    assert_eq!(s.root_element_id.as_deref(), Some("root"));

    let (r, render) = handle_interconnect_message(&mut s, "{\"action\":\"ready\"}");
    assert_eq!((r, render), (InterconnectAction::SendPushPayload, false));
    assert!(s.pending_action.is_none());
    let (r, render) = handle_interconnect_message(&mut s, "{\"action\":\"push_response\",\"status\":\"success\"}");
    assert_eq!((r, render), (InterconnectAction::Nothing, true));
    assert_eq!(s.status, "推送成功：手环端已接收并导入账号");
    assert!(!s.busy);
    assert!(s.pending_payload.is_none());
}

#[test]
fn push_of_bad_input() {
    let mut s = rendered_state();
    let (started, render) = push_input(&mut s, "nonsense");
    assert!(started.is_none());
    assert!(render);
    assert_eq!(s.status, "解析失败: URI 格式错误或不是 TOTP 类型");
    assert!(!s.busy);
}

#[test]
fn flow_failures() {
    let mut s = rendered_state();
    let (mut flow, _) = push_input(&mut s, "otpauth://totp/a:b?secret=K").0.unwrap();
    let (a, render) = flow_step(&mut s, &mut flow, FlowEvent::Devices(None));
    assert!(matches!(a, FlowAction::Done) && render);
    assert_eq!(s.status, "未找到已连接设备");
    assert!(!s.busy);

    let (mut flow, _) = push_input(&mut s, "otpauth://totp/a:b?secret=K").0.unwrap();
    flow_step(&mut s, &mut flow, FlowEvent::Devices(Some(device())));
    let (a, _) = flow_step(&mut s, &mut flow, apps(false));
    assert!(matches!(a, FlowAction::Done));
    assert_eq!(s.status, "未在手环上找到验证器快应用");

    let (mut flow, _) = push_input(&mut s, "otpauth://totp/a:b?secret=K").0.unwrap();
    flow_step(&mut s, &mut flow, FlowEvent::Devices(Some(device())));
    flow_step(&mut s, &mut flow, FlowEvent::AppList(None));
    assert_eq!(s.status, "获取快应用列表失败");

    let (mut flow, _) = push_input(&mut s, "otpauth://totp/a:b?secret=K").0.unwrap();
    flow_step(&mut s, &mut flow, FlowEvent::Devices(Some(device())));
    flow_step(&mut s, &mut flow, apps(true));
    flow_step(&mut s, &mut flow, FlowEvent::Registered(false));
    assert_eq!(s.status, "监听接收失败：请确保在 AstroBox 中允许了该插件的 interconnect 权限");
    assert!(!s.busy);

    let (mut flow, _) = push_input(&mut s, "otpauth://totp/a:b?secret=K").0.unwrap();
    flow_step(&mut s, &mut flow, FlowEvent::Devices(Some(device())));
    flow_step(&mut s, &mut flow, apps(true));
    flow_step(&mut s, &mut flow, FlowEvent::Registered(true));
    flow_step(&mut s, &mut flow, FlowEvent::Launched);
    flow_step(&mut s, &mut flow, FlowEvent::Sent(false));
    assert_eq!(s.status, "发送失败");
    assert!(!s.busy);
}

#[test]
fn install_check_then_query() {
    let mut s = rendered_state();
    let (mut flow, a) = check_wear_app_installation();
    assert!(matches!(a, FlowAction::ListDevices));
    flow_step(&mut s, &mut flow, FlowEvent::Devices(Some(device())));
    let (a, _) = flow_step(&mut s, &mut flow, apps(true));
    assert!(matches!(a, FlowAction::ListDevices));
    assert_eq!(flow.kind, FlowKind::Query);
    assert_eq!(s.status, "Band 9：手环端应用已安装，正在自动查询手环账号数量...");
    assert!(s.busy);
    flow_step(&mut s, &mut flow, FlowEvent::Devices(Some(device())));
    flow_step(&mut s, &mut flow, apps(true));
    let (a, _) = flow_step(&mut s, &mut flow, FlowEvent::Registered(true));
    assert!(matches!(a, FlowAction::Launch(_, 1)));
    assert_eq!(s.pending_action, Some(PendingAction::Query));
    let (a, _) = flow_step(&mut s, &mut flow, FlowEvent::Launched);
    assert!(matches!(a, FlowAction::Send(_, ref m) if m == "{\"action\":\"query_status\",\"requestId\":\"account_count\"}"));
    flow_step(&mut s, &mut flow, FlowEvent::Sent(true));
    assert_eq!(s.status, "已发送查询请求，等待手环端回传账号数量");
    // A count is shown only when no answer is pending.
    assert_eq!(handle_interconnect_message(&mut s, "{\"count\":3}"), (InterconnectAction::Nothing, false));
    s.pending_action = None;
    assert_eq!(handle_interconnect_message(&mut s, "{\"count\":3}"), (InterconnectAction::Nothing, true));
    assert_eq!(s.status, "手环端账号数量：3");

    let mut s = rendered_state();
    let (mut flow, _) = check_wear_app_installation();
    flow_step(&mut s, &mut flow, FlowEvent::Devices(Some(device())));
    flow_step(&mut s, &mut flow, apps(false));
    assert_eq!(s.status, "Band 9：手环端应用未安装");
    let (mut flow, _) = check_wear_app_installation();
    flow_step(&mut s, &mut flow, FlowEvent::Devices(None));
    assert_eq!(s.status, "未连接手环，无法检测手环端应用");
}

#[test]
fn backup_flow_fills_the_input() {
    let mut s = rendered_state();
    let (mut flow, a, render) = backup_wear_keys(&mut s);
    assert!(matches!(a, FlowAction::ListDevices) && render);
    assert_eq!(s.status, "正在连接设备并备份密钥...");
    flow_step(&mut s, &mut flow, FlowEvent::Devices(Some(device())));
    flow_step(&mut s, &mut flow, apps(true));
    flow_step(&mut s, &mut flow, FlowEvent::Registered(true));
    assert_eq!(s.pending_action, Some(PendingAction::Backup));
    let (a, _) = flow_step(&mut s, &mut flow, FlowEvent::Launched);
    assert!(matches!(a, FlowAction::Send(_, ref m) if m == "{\"action\":\"backup_request\"}"));
    flow_step(&mut s, &mut flow, FlowEvent::Sent(true));
    assert_eq!(handle_interconnect_message(&mut s, "{\"action\":\"ready\"}"), (InterconnectAction::SendBackupRequest, false));
    let msg = "{\"action\":\"backup_response\",\"list\":[{\"name\":\"GitHub\",\"usr\":\"alice\",\"key\":\"jbswy3dp\"}]}";
    assert_eq!(handle_interconnect_message(&mut s, msg), (InterconnectAction::Nothing, true));
    assert_eq!(s.input_text, "otpauth://totp/GitHub%3Aalice?secret=JBSWY3DP&issuer=GitHub");
    assert_eq!(s.status, "备份成功：已从手环导入 1 个账号");
    assert!(!s.busy);
}

#[test]
fn other_messages() {
    let mut s = rendered_state();
    let before = s.status.clone();
    assert_eq!(handle_interconnect_message(&mut s, "not json"), (InterconnectAction::Nothing, false));
    assert_eq!(handle_interconnect_message(&mut s, "{\"action\":\"ready\"}"), (InterconnectAction::Nothing, false));
    assert_eq!(s.status, before);
    let (flow, a, render) = query_wear_account_count(&mut s);
    assert_eq!(flow.kind, FlowKind::Query);
    assert!(matches!(a, FlowAction::ListDevices) && render);
    assert_eq!(s.status, "正在查询手环端账号数量...");
    assert!(record_external_event(&mut s, "external".to_string()));
    assert_eq!(s.status, "external");
}

#[test]
fn watch_app_position() {
    let names = vec!["a".to_string(), PACKAGE_NAME.to_string(), PACKAGE_NAME.to_string()];
    assert_eq!(find_app(&names), Some(1));
    assert_eq!(find_app(&vec!["a".to_string()]), None);
    assert_eq!(find_app(&Vec::new()), None);
    let _unused: Flow = check_wear_app_installation().0;
}

#[test]
fn push_of_clean_and_unclean_input() {
    let mut s = rendered_state();
    let (started, render) = push_clean_input(&mut s, "otpauth://totp/a:b?secret=K").unwrap();
    assert!(started.is_some() && render);
    assert_eq!(s.status, "正在查找已连接设备...");
    // Byte 15 falls inside the character `é`: nothing is read or changed.
    let mut t = rendered_state();
    let before = t.status.clone();
    assert!(push_clean_input(&mut t, "otpauth://totpé/x?secret=K").is_none());
    assert_eq!(t.status, before);
    assert!(!t.busy);
}

#[test]
fn watch_message_values() {
    let obj = |members: Vec<(&str, Json)>| Json::Object(members.into_iter().map(|(k, v)| (k.to_string(), v)).collect());
    let s_ = |t: &str| Json::Str(t.to_string());
    let mut s = rendered_state();
    s.busy = true;
    s.pending_action = Some(PendingAction::Backup);
    let ready = obj(vec![("action", s_("ready"))]);
    assert_eq!(handle_interconnect_value(&mut s, &ready), (InterconnectAction::SendBackupRequest, false));
    assert!(s.pending_action.is_none());
    let count = obj(vec![("count", Json::Number(Some(7), Some(7)))]);
    assert_eq!(handle_interconnect_value(&mut s, &count), (InterconnectAction::Nothing, true));
    assert_eq!(s.status, "手环端账号数量：7");
    assert!(!s.busy);
    let list = obj(vec![
        ("action", s_("backup_response")),
        ("list", Json::Array(vec![obj(vec![("name", s_("N")), ("usr", s_("u")), ("key", s_("k2"))])])),
    ]);
    assert_eq!(handle_interconnect_value(&mut s, &list), (InterconnectAction::Nothing, true));
    assert_eq!(s.input_text, "otpauth://totp/N%3Au?secret=K2&issuer=N");
    assert_eq!(s.status, "备份成功：已从手环导入 1 个账号");
    let other = obj(vec![("x", Json::Null)]);
    let before = s.status.clone();
    assert_eq!(handle_interconnect_value(&mut s, &other), (InterconnectAction::Nothing, false));
    assert_eq!(s.status, before);
}

#[test]
fn backup_request_text() {
    assert_eq!(backup_request_message(), "{\"action\":\"backup_request\"}");
}
