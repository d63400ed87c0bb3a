//! Frame and user events.
//!
//! While the server renders, it reports frame-level events (a skipped
//! frame, a render, display, or device error) and user input (a raw
//! keystroke, or a typed command) through callbacks registered once per
//! session. A callback may fire synchronously from within any call into
//! the server, on whatever thread made that call; a callback must not
//! push state back into the server, and one handle must not be driven
//! from two call sites at once. Each notice carries everything the
//! caller may observe about the event.

use vstd::prelude::*;

verus! {

/// What happened to a frame: it was skipped, it could not be rendered,
/// it rendered but could not be displayed, or the driver itself failed.
#[derive(Clone, Copy, PartialEq, Eq, Structural, Debug)]
pub enum RenderEvent {
    FrameSkipped,
    RenderError,
    DisplayError,
    DeviceError,
}

/// The details of one frame event: its kind, whether it is unrecoverable
/// for the renderer, and an optional message.
pub struct RenderResult {
    pub event: RenderEvent,
    pub critical: bool,
    pub message: Option<Vec<u8>>,
}

impl RenderResult {
    pub fn new(event: RenderEvent, critical: bool, message: Option<Vec<u8>>) -> (r: Self)
        ensures
            r.event == event,
            r.critical == critical,
            r.message == message,
    {
        RenderResult { event, critical, message }
    }
}

/// What kind of input the user produced: a literal button press, or a
/// typed command.
#[derive(Clone, Copy, PartialEq, Eq, Structural, Debug)]
pub enum UserEvent {
    Input,
    Command,
}

/// One user-input notice: the kind of event and its text — the button
/// pressed, or the command entered.
pub struct UserNotice {
    pub event: UserEvent,
    pub text: Vec<u8>,
}

impl UserNotice {
    pub fn new(event: UserEvent, text: Vec<u8>) -> (r: Self)
        ensures
            r.event == event,
            r.text == text,
    {
        UserNotice { event, text }
    }
}

/// One frame-event notice, exactly as the callback observes it: the
/// event kind, the criticality flag, the frame index, the token of the
/// state snapshot that was being processed, and the optional message.
pub struct FrameNotice {
    pub event: RenderEvent,
    pub critical: bool,
    pub frame_index: i32,
    pub state_token: u64,
    pub message: Option<Vec<u8>>,
}

impl FrameNotice {
    /// Builds the notice the caller observes for one frame event. Every
    /// field is exactly what was reported, nothing added and nothing
    /// lost.
    pub fn new(result: RenderResult, frame_index: i32, state_token: u64) -> (r: Self)
        ensures
            r.event == result.event,
            r.critical == result.critical,
            r.message == result.message,
            r.frame_index == frame_index,
            r.state_token == state_token,
    {
        let RenderResult { event, critical, message } = result;
        FrameNotice { event, critical, frame_index, state_token, message }
    }
}

} // verus!
