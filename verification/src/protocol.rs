use vstd::prelude::*;
use crate::color::ARGBColor;
use crate::db::JObj;
use crate::geom::{Rect, Size};
use crate::graphics::GFXBuffer;

verus! {

/// Which mouse button an event concerns.
#[derive(Clone, Copy, Debug, PartialEq, Eq, Structural)]
pub enum MouseButton {
    Primary,
    Secondary,
}

/// A key pressed in a window. `code` is the numeric key code and `key` the
/// text the key produced.
#[derive(Clone, Debug)]
pub struct KeyDownEvent {
    pub app_id: u128,
    pub window_id: u128,
    pub original_timestamp: i64,
    pub code: u32,
    pub key: String,
}

/// A key released in a window, by numeric key code.
#[derive(Clone, Copy, Debug)]
pub struct KeyUpEvent {
    pub app_id: u128,
    pub window_id: u128,
    pub original_timestamp: i64,
    pub key: u32,
}

#[derive(Clone, Copy, Debug)]
pub struct MouseDownEvent {
    pub app_id: u128,
    pub window_id: u128,
    pub original_timestamp: u128,
    pub button: MouseButton,
    pub x: i32,
    pub y: i32,
}

impl MouseDownEvent {
    /// A press of the primary button at `(x, y)` at the given time, in no
    /// particular application or window.
    pub fn init_primary(x: i32, y: i32, timestamp: u128) -> (e: MouseDownEvent)
        ensures
            e == (MouseDownEvent {
                app_id: 0,
                window_id: 0,
                original_timestamp: timestamp,
                button: MouseButton::Primary,
                x,
                y,
            }),
    {
        MouseDownEvent {
            app_id: 0,
            window_id: 0,
            original_timestamp: timestamp,
            button: MouseButton::Primary,
            x,
            y,
        }
    }
}

#[derive(Clone, Copy, Debug)]
pub struct MouseMoveEvent {
    pub app_id: u128,
    pub window_id: u128,
    pub original_timestamp: u128,
    pub button: MouseButton,
    pub x: i32,
    pub y: i32,
}

#[derive(Clone, Copy, Debug)]
pub struct MouseUpEvent {
    pub app_id: u128,
    pub window_id: u128,
    pub original_timestamp: u128,
    pub button: MouseButton,
    pub x: i32,
    pub y: i32,
}

#[derive(Clone, Copy, Debug)]
pub struct HelloApp {}

#[derive(Clone, Copy, Debug)]
pub struct HelloAppResponse {
    pub app_id: u128,
}

#[derive(Clone, Copy, Debug)]
pub struct AppDisconnected {
    pub app_id: u128,
}

#[derive(Clone, Copy, Debug)]
pub struct HelloWindowManager {}

#[derive(Clone, Copy, Debug)]
pub struct HelloWindowManagerResponse {
    pub wm_id: u128,
}

#[derive(Clone, Copy, Debug)]
pub struct DrawRectCommand {
    pub app_id: u128,
    pub window_id: u128,
    pub rect: Rect,
    pub color: ARGBColor,
}

#[derive(Debug)]
pub struct DrawImageCommand {
    pub app_id: u128,
    pub window_id: u128,
    pub rect: Rect,
    pub buffer: GFXBuffer,
}

#[derive(Clone, Debug)]
pub struct OpenWindowCommand {
    pub window_type: String,
    pub window_title: String,
    pub bounds: Rect,
}

#[derive(Clone, Debug)]
pub struct OpenWindowResponse {
    pub app_id: u128,
    pub window_id: u128,
    pub window_type: String,
    pub window_title: String,
    pub bounds: Rect,
}

#[derive(Clone, Copy, Debug)]
pub struct CloseWindowResponse {
    pub app_id: u128,
    pub window_id: u128,
}

#[derive(Clone, Copy, Debug)]
pub struct WindowResized {
    pub app_id: u128,
    pub window_id: u128,
    pub size: Size,
}

/// How a query clause compares a field with its value.
#[allow(non_camel_case_types)]
#[derive(Clone, Copy, Debug, PartialEq, Eq, Structural)]
pub enum DBQueryClauseKind {
    equals,
    equalsi,
    substring,
    substringi,
}

#[derive(Clone, Debug)]
pub struct DBQueryClause {
    pub kind: DBQueryClauseKind,
    pub key: String,
    pub value: String,
}

#[derive(Debug)]
pub struct DBQueryRequest {
    pub app_id: u128,
    pub query: Vec<DBQueryClause>,
}

#[derive(Debug)]
pub struct DBQueryResponse {
    pub app_id: u128,
    pub success: bool,
    pub results: Vec<JObj>,
}

#[derive(Debug)]
pub struct DBAddRequest {
    pub app_id: u128,
    pub object: JObj,
}

#[derive(Debug)]
pub struct DBAddResponse {
    pub app_id: u128,
    pub success: bool,
    pub object: JObj,
}

#[derive(Debug)]
pub struct DBUpdateRequest {
    pub app_id: u128,
    pub object: JObj,
}

#[derive(Debug)]
pub struct DBUpdateResponse {
    pub app_id: u128,
    pub success: bool,
    pub object: JObj,
}

#[derive(Debug)]
pub struct DBDeleteRequest {
    pub app_id: u128,
    pub object: JObj,
}

#[derive(Debug)]
pub struct DBDeleteResponse {
    pub app_id: u128,
    pub success: bool,
    pub object: JObj,
}

#[derive(Debug)]
pub struct AudioPlayTrackRequest {
    pub app_id: u128,
    pub track: JObj,
}

#[derive(Debug)]
pub struct AudioPlayTrackResponse {
    pub app_id: u128,
    pub success: bool,
    pub track: JObj,
}

#[derive(Debug)]
pub struct AudioPauseTrackRequest {
    pub app_id: u128,
    pub track: JObj,
}

#[derive(Debug)]
pub struct AudioPauseTrackResponse {
    pub app_id: u128,
    pub success: bool,
    pub track: JObj,
}

/// Messages between the debugger and the central server.
#[derive(Debug)]
pub enum DebugMessage {
    HelloDebugger,
    HelloDebuggerResponse,
    ServerStarted,
    ServerStopped,
    WindowManagerConnected,
    WindowManagerDisconnected,
    AppConnected(String),
    AppDisconnected(String),
    WindowOpened(String),
    WindowClosed(String),
    BackgroundReceivedMouseEvent,
    WindowFocusChanged(String),
    RequestServerShutdown,
    AppLog(String),
    FakeMouseEvent(MouseDownEvent),
    ScreenCapture(Rect, String),
    ScreenCaptureResponse(),
}

/// Every message the parts of the system exchange.
#[derive(Debug)]
pub enum APICommand {
    AppConnect(HelloApp),
    AppConnectResponse(HelloAppResponse),
    AppDisconnected(AppDisconnected),
    Debug(DebugMessage),
    WMConnect(HelloWindowManager),
    WMConnectResponse(HelloWindowManagerResponse),
    OpenWindowCommand(OpenWindowCommand),
    OpenWindowResponse(OpenWindowResponse),
    CloseWindowResponse(CloseWindowResponse),
    WindowResized(WindowResized),
    DrawRectCommand(DrawRectCommand),
    DrawImageCommand(DrawImageCommand),
    KeyDown(KeyDownEvent),
    KeyUp(KeyUpEvent),
    MouseDown(MouseDownEvent),
    MouseMove(MouseMoveEvent),
    MouseUp(MouseUpEvent),
    DBQueryRequest(DBQueryRequest),
    DBQueryResponse(DBQueryResponse),
    DBAddRequest(DBAddRequest),
    DBAddResponse(DBAddResponse),
    DBUpdateRequest(DBUpdateRequest),
    DBUpdateResponse(DBUpdateResponse),
    DBDeleteRequest(DBDeleteRequest),
    DBDeleteResponse(DBDeleteResponse),
    AudioPlayTrackRequest(AudioPlayTrackRequest),
    AudioPlayTrackResponse(AudioPlayTrackResponse),
    AudioPauseTrackRequest(AudioPauseTrackRequest),
    AudioPauseTrackResponse(AudioPauseTrackResponse),
    SystemShutdown,
}

/// A command with where it came from, whether to trace it, and when it was
/// sent, in microseconds.
#[derive(Debug)]
pub struct IncomingMessage {
    pub source: u128,
    pub command: APICommand,
    pub trace: bool,
    pub timestamp_usec: u128,
}

pub const DEBUG_PORT: i32 = 3335;

pub const WINDOW_MANAGER_PORT: i32 = 3334;

pub const APP_MANAGER_PORT: i32 = 3333;

/// What the audio service is asked to do.
#[derive(Clone, Copy, Debug, PartialEq, Eq, Structural)]
pub enum AudioCommand {
    Play(),
    TogglePlayPause,
    Quit,
}

} // verus!
