//! Event propagation outcomes and the listener kinds views subscribe to.

use vstd::prelude::*;

verus! {

/// Control whether an event will continue propagating or whether it should
/// stop.
#[derive(Debug)]
pub enum EventPropagation {
    /// Stop event propagation and mark the event as processed.
    Stop,
    /// Let event propagation continue.
    Continue,
}

/// The propagation outcome a handler reports for one event.
#[derive(Debug)]
pub struct EventResult(pub EventPropagation);

impl EventPropagation {
    pub fn is_continue(&self) -> (r: bool)
        ensures
            r == (*self is Continue),
    {
        match self {
            EventPropagation::Continue => true,
            EventPropagation::Stop => false,
        }
    }

    pub fn is_stop(&self) -> (r: bool)
        ensures
            r == (*self is Stop),
    {
        match self {
            EventPropagation::Stop => true,
            EventPropagation::Continue => false,
        }
    }

    /// An event counts as processed exactly when propagation stopped.
    pub fn is_processed(&self) -> (r: bool)
        ensures
            r == (*self is Stop),
    {
        match self {
            EventPropagation::Stop => true,
            EventPropagation::Continue => false,
        }
    }
}

impl EventResult {
    /// The outcome that lets the event continue to other handlers.
    pub fn event_continue() -> (r: Self)
        ensures
            r.0 is Continue,
    {
        EventResult(EventPropagation::Continue)
    }

    /// The outcome that stops propagation for a handled event.
    pub fn event_stop() -> (r: Self)
        ensures
            r.0 is Stop,
    {
        EventResult(EventPropagation::Stop)
    }

    pub fn is_processed(&self) -> (r: bool)
        ensures
            r == (self.0 is Stop),
    {
        self.0.is_processed()
    }
}

/// The event kinds a view can listen for.
#[derive(Debug, Hash, PartialEq, Eq, Copy, Clone)]
pub enum EventListener {
    KeyDown,
    KeyUp,
    Click,
    DoubleClick,
    SecondaryClick,
    DragStart,
    DragEnd,
    DragOver,
    DragEnter,
    DragLeave,
    Drop,
    PointerDown,
    PointerMove,
    PointerUp,
    PointerEnter,
    PointerLeave,
    ImeEnabled,
    ImeDisabled,
    ImePreedit,
    ImeCommit,
    PointerWheel,
    FocusGained,
    FocusLost,
    ThemeChanged,
    WindowClosed,
    WindowResized,
    WindowMoved,
    WindowGotFocus,
    WindowLostFocus,
    WindowMaximizeChanged,
    DroppedFile,
}

} // verus!
