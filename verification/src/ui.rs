//! The plugin's screen state: the input box, the status line, whether an
//! operation runs, what the plugin waits for from the watch, and the texts
//! of the main screen.
use vstd::prelude::*;
use crate::input::nat_digits;
use crate::input::nat_digits_exec;
use crate::flow::UiEvent;
use crate::text::{chars_of, string_of, trim, trim_chars};

verus! {

/// The package of the watch application.
pub const PACKAGE_NAME: &'static str = "com.xw.mibandtotp";

/// What the plugin waits for the watch to answer.
#[derive(Clone, Copy, Debug, PartialEq, Eq, Structural)]
pub enum PendingAction {
    Query,
    Backup,
    Push,
}

/// The state of the plugin's screen.
pub struct UiState {
    /// The element the screen is rendered into, once the host asked for it.
    pub root_element_id: Option<String>,
    /// The text in the input box.
    pub input_text: String,
    /// The status line.
    pub status: String,
    /// Whether an operation runs (the buttons are then disabled).
    pub busy: bool,
    /// Whether the check for the watch application has started.
    pub install_check_started: bool,
    /// What the plugin waits for the watch to answer.
    pub pending_action: Option<PendingAction>,
    /// The message to push once the watch application is ready.
    pub pending_payload: Option<String>,
}

/// The contents of a [`UiState`], with its texts as character sequences.
pub ghost struct UiModel {
    pub root_element_id: Option<Seq<char>>,
    pub input_text: Seq<char>,
    pub status: Seq<char>,
    pub busy: bool,
    pub install_check_started: bool,
    pub pending_action: Option<PendingAction>,
    pub pending_payload: Option<Seq<char>>,
}

/// The view of an optional text.
pub open spec fn opt_text(o: Option<String>) -> Option<Seq<char>> {
    match o {
        Some(s) => Some(s@),
        None => None,
    }
}

impl View for UiState {
    type V = UiModel;

    open spec fn view(&self) -> UiModel {
        UiModel {
            root_element_id: opt_text(self.root_element_id),
            input_text: self.input_text@,
            status: self.status@,
            busy: self.busy,
            install_check_started: self.install_check_started,
            pending_action: self.pending_action,
            pending_payload: opt_text(self.pending_payload),
        }
    }
}

/// The kind of an element of the screen.
#[derive(Clone, Copy, Debug, PartialEq, Eq, Structural)]
pub enum ElementKind {
    Div,
    Textarea,
    Button,
    P,
}

/// How an element is laid out and drawn. Sizes are in pixels, colors are
/// `#RRGGBB` texts.
pub struct Style {
    /// A flex container that stacks its children in a column.
    pub flex_column: bool,
    pub width_full: bool,
    pub height: Option<u32>,
    pub padding: Option<u32>,
    pub margin_top: Option<u32>,
    pub radius: Option<u32>,
    /// The border's width and color.
    pub border: Option<(u32, String)>,
    pub bg: Option<String>,
    /// The font size.
    pub size: Option<u32>,
    pub text_color: Option<String>,
    pub autofocus: bool,
    pub tab_index: Option<u32>,
    pub disabled: bool,
    /// Drawn faded (the host's 0.72 opacity), as a disabled button is.
    pub dimmed: bool,
}

/// An element of the screen: its kind, its text, its look, and the id it
/// sends with each user event it reports.
pub struct Element {
    pub kind: ElementKind,
    pub content: Option<String>,
    pub style: Style,
    pub bindings: Vec<(UiEvent, String)>,
}

/// The main screen: a root element and the elements inside it, in order.
pub struct Screen {
    pub root: Element,
    pub children: Vec<Element>,
}

/// The contents of a [`Style`].
pub ghost struct StyleModel {
    pub flex_column: bool,
    pub width_full: bool,
    pub height: Option<u32>,
    pub padding: Option<u32>,
    pub margin_top: Option<u32>,
    pub radius: Option<u32>,
    pub border: Option<(u32, Seq<char>)>,
    pub bg: Option<Seq<char>>,
    pub size: Option<u32>,
    pub text_color: Option<Seq<char>>,
    pub autofocus: bool,
    pub tab_index: Option<u32>,
    pub disabled: bool,
    pub dimmed: bool,
}

/// The contents of an [`Element`].
pub ghost struct ElementModel {
    pub kind: ElementKind,
    pub content: Option<Seq<char>>,
    pub style: StyleModel,
    pub bindings: Seq<(UiEvent, Seq<char>)>,
}

/// The contents of a [`Screen`].
pub ghost struct ScreenModel {
    pub root: ElementModel,
    pub children: Seq<ElementModel>,
}

impl View for Style {
    type V = StyleModel;

    open spec fn view(&self) -> StyleModel {
        StyleModel {
            flex_column: self.flex_column,
            width_full: self.width_full,
            height: self.height,
            padding: self.padding,
            margin_top: self.margin_top,
            radius: self.radius,
            border: match self.border {
                Some((w, c)) => Some((w, c@)),
                None => None,
            },
            bg: opt_text(self.bg),
            size: self.size,
            text_color: opt_text(self.text_color),
            autofocus: self.autofocus,
            tab_index: self.tab_index,
            disabled: self.disabled,
            dimmed: self.dimmed,
        }
    }
}

impl View for Element {
    type V = ElementModel;

    open spec fn view(&self) -> ElementModel {
        ElementModel {
            kind: self.kind,
            content: opt_text(self.content),
            style: self.style@,
            bindings: self.bindings@.map_values(|b: (UiEvent, String)| (b.0, b.1@)),
        }
    }
}

impl View for Screen {
    type V = ScreenModel;

    open spec fn view(&self) -> ScreenModel {
        ScreenModel { root: self.root@, children: self.children@.map_values(|e: Element| e@) }
    }
}

/// A look with nothing set.
pub open spec fn plain_style() -> StyleModel {
    StyleModel {
        flex_column: false,
        width_full: false,
        height: None,
        padding: None,
        margin_top: None,
        radius: None,
        border: None,
        bg: None,
        size: None,
        text_color: None,
        autofocus: false,
        tab_index: None,
        disabled: false,
        dimmed: false,
    }
}

/// The input box: its text, and the id `totp_input` sent on input and
/// change.
pub open spec fn input_box(content: Option<Seq<char>>) -> ElementModel {
    ElementModel {
        kind: ElementKind::Textarea,
        content,
        style: StyleModel {
            width_full: true,
            height: Some(156),
            padding: Some(14),
            radius: Some(8),
            border: Some((1, "#6B7280"@)),
            bg: Some("#F9FAFB"@),
            size: Some(16),
            text_color: Some("#000000"@),
            autofocus: true,
            tab_index: Some(0),
            ..plain_style()
        },
        bindings: seq![(UiEvent::Input, "totp_input"@), (UiEvent::Change, "totp_input"@)],
    }
}

/// A button: its label (or the busy label), disabled and faded while an
/// operation runs, sending `id` on click and pointer up.
pub open spec fn button_element(busy: bool, label: Seq<char>, bg: Seq<char>, margin_top: u32, id: Seq<char>) -> ElementModel {
    ElementModel {
        kind: ElementKind::Button,
        content: Some(button_label(busy, label)),
        style: StyleModel {
            width_full: true,
            height: Some(56),
            padding: Some(16),
            margin_top: Some(margin_top),
            radius: Some(8),
            bg: Some(bg),
            text_color: Some("#FFFFFF"@),
            disabled: busy,
            dimmed: busy,
            ..plain_style()
        },
        bindings: seq![(UiEvent::Click, id), (UiEvent::PointerUp, id)],
    }
}

/// A paragraph of text.
pub open spec fn paragraph(text: Seq<char>, size: u32, color: Seq<char>, margin_top: u32) -> ElementModel {
    ElementModel {
        kind: ElementKind::P,
        content: Some(text),
        style: StyleModel {
            size: Some(size),
            text_color: Some(color),
            margin_top: Some(margin_top),
            ..plain_style()
        },
        bindings: Seq::empty(),
    }
}

/// The help text under the buttons.
pub open spec fn help_text() -> Seq<char> {
    "支持普通 TOTP URI、Google Authenticator 导出 URI。二维码图片需从“文件”中选择。"@
}

/// The main screen of a state: a column holding the input box, the five
/// buttons (push, edit, clipboard, QR image, backup), the help text, the
/// character count and the status line.
pub open spec fn main_screen(s: UiModel) -> ScreenModel {
    ScreenModel {
        root: ElementModel {
            kind: ElementKind::Div,
            content: None,
            style: StyleModel { flex_column: true, width_full: true, padding: Some(16), ..plain_style() },
            bindings: Seq::empty(),
        },
        children: seq![
            input_box(if trim(s.input_text).len() > 0 { Some(s.input_text) } else { None }),
            button_element(s.busy, "推送输入内容"@, "#2563EB"@, 14, "send_totp"@),
            button_element(s.busy, "手动输入/编辑"@, "#374151"@, 10, "edit_input"@),
            button_element(s.busy, "读取剪贴板"@, "#059669"@, 10, "send_clipboard"@),
            button_element(s.busy, "选择二维码图片文件"@, "#7C3AED"@, 10, "send_qr_image"@),
            button_element(s.busy, "直接从手环备份密钥"@, "#D97706"@, 10, "backup_wear_keys"@),
            paragraph(help_text(), 14, "#4B5563"@, 14),
            paragraph(loaded_text_of(s.input_text.len()), 14, "#374151"@, 10),
            paragraph(status_text_of(s.status), 13, "#374151"@, 12),
        ],
    }
}

/// The label of a button: its own, or the busy label.
pub open spec fn button_label(busy: bool, label: Seq<char>) -> Seq<char> {
    if busy {
        "处理中..."@
    } else {
        label
    }
}

/// The text that tells how many characters the input holds.
pub open spec fn loaded_text_of(n: nat) -> Seq<char> {
    if n > 0 {
        "当前已载入 "@ + nat_digits(n) + " 个字符。"@
    } else {
        "当前未载入文本。"@
    }
}

/// The status line shown: the status, or the hint when it is empty.
pub open spec fn status_text_of(status: Seq<char>) -> Seq<char> {
    if status.len() == 0 {
        "请先在 AstroBox 中连接手环，并确保已安装 TOTP 快应用"@
    } else {
        status
    }
}

impl UiState {
    /// The state before anything happened.
    pub fn new() -> (s: Self)
        ensures
            s.root_element_id is None,
            s.input_text@.len() == 0,
            s.status@.len() == 0,
            !s.busy,
            !s.install_check_started,
            s.pending_action is None,
            s.pending_payload is None,
    {
        UiState {
            root_element_id: None,
            input_text: String::new(),
            status: String::new(),
            busy: false,
            install_check_started: false,
            pending_action: None,
            pending_payload: None,
        }
    }

    /// Sets the status line; the result says whether to render the screen.
    pub fn set_status(&mut self, status: String) -> (render: bool)
        ensures
            *final(self) == (UiState { status, ..*old(self) }),
            render == old(self).root_element_id is Some,
    {
        self.status = status;
        self.root_element_id.is_some()
    }

    /// Sets the status line and whether an operation runs; the result says
    /// whether to render the screen.
    pub fn set_busy(&mut self, status: String, busy: bool) -> (render: bool)
        ensures
            *final(self) == (UiState { status, busy, ..*old(self) }),
            render == old(self).root_element_id is Some,
    {
        self.status = status;
        self.busy = busy;
        self.root_element_id.is_some()
    }

    /// Whether an operation runs.
    pub fn is_busy(&self) -> (r: bool)
        ensures
            r == self.busy,
    {
        self.busy
    }

    /// The element to render the screen into, if any.
    pub fn rerender(&self) -> (r: Option<String>)
        ensures
            r == self.root_element_id,
    {
        match &self.root_element_id {
            Some(id) => Some(id.clone()),
            None => None,
        }
    }

    /// Keeps the text of the input box (no render).
    pub fn remember_input_text(&mut self, input_text: String)
        ensures
            *final(self) == (UiState { input_text, ..*old(self) }),
    {
        self.input_text = input_text;
    }

    /// Sets the input text and the status line and ends the operation; the
    /// result says whether to render the screen.
    pub fn set_input_text_and_status(&mut self, input_text: String, status: String) -> (render:
        bool)
        ensures
            *final(self) == (UiState { input_text, status, busy: false, ..*old(self) }),
            render == old(self).root_element_id is Some,
    {
        self.input_text = input_text;
        self.status = status;
        self.busy = false;
        self.root_element_id.is_some()
    }

    /// Stops waiting for the watch.
    pub fn clear_pending_action(&mut self)
        ensures
            *final(self) == (UiState { pending_action: None, pending_payload: None, ..*old(self) }),
    {
        self.pending_action = None;
        self.pending_payload = None;
    }

    /// The main screen of the state.
    pub fn build_main_ui(&self) -> (ui: Screen)
        ensures
            ui@ == main_screen(self@),
    {
        let input = chars_of(self.input_text.as_str());
        let trimmed = trim_chars(&input);
        let input_content = if trimmed.len() > 0 {
            Some(self.input_text.clone())
        } else {
            None
        };
        let busy = self.busy;
        let loaded_text = if input.len() > 0 {
            let mut t = chars_of("当前已载入 ");
            append(&mut t, &nat_digits_exec(input.len() as u64));
            append(&mut t, &chars_of(" 个字符。"));
            string_of(&t)
        } else {
            "当前未载入文本。".to_string()
        };
        let status_text = if self.status.as_str().is_empty() {
            "请先在 AstroBox 中连接手环，并确保已安装 TOTP 快应用".to_string()
        } else {
            self.status.clone()
        };
        let input_box_el = input_box_exec(input_content);
        let send = button_exec(busy, "推送输入内容", "#2563EB", 14, "send_totp");
        let edit = button_exec(busy, "手动输入/编辑", "#374151", 10, "edit_input");
        let clipboard = button_exec(busy, "读取剪贴板", "#059669", 10, "send_clipboard");
        let qr_image = button_exec(busy, "选择二维码图片文件", "#7C3AED", 10, "send_qr_image");
        let backup = button_exec(busy, "直接从手环备份密钥", "#D97706", 10, "backup_wear_keys");
        let help = paragraph_exec(
            "支持普通 TOTP URI、Google Authenticator 导出 URI。二维码图片需从“文件”中选择。".to_string(),
            14,
            "#4B5563",
            14,
        );
        let loaded = paragraph_exec(loaded_text, 14, "#374151", 10);
        let status = paragraph_exec(status_text, 13, "#374151", 12);
        let mut root_style = plain_style_exec();
        root_style.flex_column = true;
        root_style.width_full = true;
        root_style.padding = Some(16);
        let root = Element { kind: ElementKind::Div, content: None, style: root_style, bindings: Vec::new() };
        let mut children: Vec<Element> = Vec::new();
        children.push(input_box_el);
        children.push(send);
        children.push(edit);
        children.push(clipboard);
        children.push(qr_image);
        children.push(backup);
        children.push(help);
        children.push(loaded);
        children.push(status);
        let ui = Screen { root, children };
        proof {
            assert(ui@.root.bindings =~= Seq::<(UiEvent, Seq<char>)>::empty());
            assert(ui@.children =~= main_screen(self@).children);
        }
        ui
    }
}

/// A look with nothing set.
fn plain_style_exec() -> (st: Style)
    ensures
        st@ == plain_style(),
{
    Style {
        flex_column: false,
        width_full: false,
        height: None,
        padding: None,
        margin_top: None,
        radius: None,
        border: None,
        bg: None,
        size: None,
        text_color: None,
        autofocus: false,
        tab_index: None,
        disabled: false,
        dimmed: false,
    }
}

/// The input box with the given text.
fn input_box_exec(content: Option<String>) -> (e: Element)
    ensures
        e@ == input_box(opt_text(content)),
{
    let mut style = plain_style_exec();
    style.width_full = true;
    style.height = Some(156);
    style.padding = Some(14);
    style.radius = Some(8);
    style.border = Some((1, "#6B7280".to_string()));
    style.bg = Some("#F9FAFB".to_string());
    style.size = Some(16);
    style.text_color = Some("#000000".to_string());
    style.autofocus = true;
    style.tab_index = Some(0);
    let mut bindings: Vec<(UiEvent, String)> = Vec::new();
    bindings.push((UiEvent::Input, "totp_input".to_string()));
    bindings.push((UiEvent::Change, "totp_input".to_string()));
    let e = Element { kind: ElementKind::Textarea, content, style, bindings };
    proof {
        assert(e@.bindings =~= seq![(UiEvent::Input, "totp_input"@), (UiEvent::Change, "totp_input"@)]);
    }
    e
}

/// A button with its label (or the busy label), color, top margin and id.
fn button_exec(busy: bool, label: &str, bg: &str, margin_top: u32, id: &str) -> (e: Element)
    ensures
        e@ == button_element(busy, label@, bg@, margin_top, id@),
{
    let content = if busy {
        "处理中...".to_string()
    } else {
        label.to_string()
    };
    let mut style = plain_style_exec();
    style.width_full = true;
    style.height = Some(56);
    style.padding = Some(16);
    style.margin_top = Some(margin_top);
    style.radius = Some(8);
    style.bg = Some(bg.to_string());
    style.text_color = Some("#FFFFFF".to_string());
    style.disabled = busy;
    style.dimmed = busy;
    let mut bindings: Vec<(UiEvent, String)> = Vec::new();
    bindings.push((UiEvent::Click, id.to_string()));
    bindings.push((UiEvent::PointerUp, id.to_string()));
    let e = Element { kind: ElementKind::Button, content: Some(content), style, bindings };
    proof {
        assert(e@.bindings =~= seq![(UiEvent::Click, id@), (UiEvent::PointerUp, id@)]);
    }
    e
}

/// A paragraph with its text, font size, color and top margin.
fn paragraph_exec(text: String, size: u32, color: &str, margin_top: u32) -> (e: Element)
    ensures
        e@ == paragraph(text@, size, color@, margin_top),
{
    let mut style = plain_style_exec();
    style.size = Some(size);
    style.text_color = Some(color.to_string());
    style.margin_top = Some(margin_top);
    let e = Element { kind: ElementKind::P, content: Some(text), style, bindings: Vec::new() };
    proof {
        assert(e@.bindings =~= Seq::<(UiEvent, Seq<char>)>::empty());
    }
    e
}

/// Appends the characters of `s`.
fn append(out: &mut Vec<char>, s: &Vec<char>)
    ensures
        final(out)@ == old(out)@ + s@,
{
    let mut i: usize = 0;
    while i < s.len()
        invariant
            i <= s.len(),
            out@ == old(out)@ + s@.take(i as int),
        decreases s.len() - i,
    {
        out.push(s[i]);
        i = i + 1;
        assert(out@ =~= old(out)@ + s@.take(i as int));
    }
    assert(s@.take(s.len() as int) =~= s@);
}

/// Records a status coming from outside the screen; the result says
/// whether to render the screen.
pub fn record_external_event(state: &mut UiState, status: String) -> (render: bool)
    ensures
        *final(state) == (UiState { status, ..*old(state) }),
        render == old(state).root_element_id is Some,
{
    state.set_status(status)
}

} // verus!
