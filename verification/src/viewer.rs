//! The decisions of the viewer window: what each window event asks the
//! renderer to do, and how the viewer's state changes. The renderer performs
//! the action and reports what came of it as the next event.
use vstd::prelude::*;

verus! {

/// What the viewer remembers between events.
#[derive(Debug, Clone, Copy, PartialEq, Eq, Structural)]
pub struct ViewerState {
    /// The window and its renderer exist.
    pub ready: bool,
    /// The left mouse button is held down.
    pub is_panning: bool,
    /// A cursor position was seen since the button was last released.
    pub has_cursor: bool,
}

/// What came of presenting a frame.
#[derive(Debug, Clone, Copy, PartialEq, Eq, Structural)]
pub enum RenderOutcome {
    Presented,
    Lost,
    Outdated,
    OutOfMemory,
    Timeout,
    Other,
}

/// What happened to the viewer.
#[derive(Debug, Clone, Copy, PartialEq, Eq, Structural)]
pub enum ViewerEvent {
    /// The application was resumed.
    Resumed,
    /// Creating the window and its renderer succeeded or failed.
    SetUpFinished { succeeded: bool },
    /// The window's close button was pressed.
    CloseRequested,
    /// The window took a new size.
    Resized { width: u32, height: u32 },
    /// The left mouse button was pressed or released.
    LeftButton { pressed: bool },
    /// The cursor moved.
    CursorMoved,
    /// The mouse wheel turned.
    MouseWheel,
    /// The window asks to be drawn.
    RedrawRequested,
    /// A frame was drawn; the window has the given size.
    RenderFinished { outcome: RenderOutcome, width: u32, height: u32 },
    /// The event queue is empty.
    AboutToWait,
    /// Any other event, or one for another window.
    Ignored,
}

/// What the viewer asks of the renderer.
#[derive(Debug, Clone, Copy, PartialEq, Eq, Structural)]
pub enum ViewerAction {
    Nothing,
    /// Create the window and its renderer.
    SetUp,
    /// Leave the event loop.
    Exit,
    /// Record the window's new size, and resize the drawing surface too
    /// when `resize_surface`.
    ResizeWindow { resize_surface: bool },
    /// Pan the camera by the cursor's movement since its last position, then
    /// ask for a redraw.
    PanAndRedraw,
    /// Ask for a redraw.
    RequestRedraw,
    /// Zoom at the last cursor position, then ask for a redraw.
    ZoomAtCursor,
    /// Zoom at the center of the window, then ask for a redraw.
    ZoomAtCenter,
    /// Draw a frame.
    Render,
    /// Configure the drawing surface again at the window's size.
    ResizeSurface,
    /// Report the render error and go on.
    ReportRenderError,
}

/// A surface can only be configured with a nonzero size.
pub open spec fn is_drawable_size(width: u32, height: u32) -> bool {
    width > 0 && height > 0
}

/// The viewer's answer to `event` in `state`: the next state and the action.
pub open spec fn spec_step(state: ViewerState, event: ViewerEvent) -> (ViewerState, ViewerAction) {
    match event {
        ViewerEvent::Resumed => if state.ready {
            (state, ViewerAction::Nothing)
        } else {
            (state, ViewerAction::SetUp)
        },
        ViewerEvent::SetUpFinished { succeeded } => if succeeded {
            (ViewerState { ready: true, ..state }, ViewerAction::Nothing)
        } else {
            (state, ViewerAction::Exit)
        },
        ViewerEvent::AboutToWait => if state.ready {
            (state, ViewerAction::RequestRedraw)
        } else {
            (state, ViewerAction::Nothing)
        },
        ViewerEvent::Ignored => (state, ViewerAction::Nothing),
        _ => if !state.ready {
            (state, ViewerAction::Nothing)
        } else {
            match event {
                ViewerEvent::CloseRequested => (state, ViewerAction::Exit),
                ViewerEvent::Resized { width, height } => (
                    state,
                    ViewerAction::ResizeWindow { resize_surface: is_drawable_size(width, height) },
                ),
                ViewerEvent::LeftButton { pressed } => (
                    ViewerState {
                        is_panning: pressed,
                        has_cursor: pressed && state.has_cursor,
                        ..state
                    },
                    ViewerAction::Nothing,
                ),
                ViewerEvent::CursorMoved => (
                    ViewerState { has_cursor: true, ..state },
                    if !state.is_panning {
                        ViewerAction::Nothing
                    } else if state.has_cursor {
                        ViewerAction::PanAndRedraw
                    } else {
                        ViewerAction::RequestRedraw
                    },
                ),
                ViewerEvent::MouseWheel => (
                    state,
                    if state.has_cursor {
                        ViewerAction::ZoomAtCursor
                    } else {
                        ViewerAction::ZoomAtCenter
                    },
                ),
                ViewerEvent::RedrawRequested => (state, ViewerAction::Render),
                ViewerEvent::RenderFinished { outcome, width, height } => (
                    state,
                    match outcome {
                        RenderOutcome::Presented => ViewerAction::Nothing,
                        RenderOutcome::Lost | RenderOutcome::Outdated => if is_drawable_size(
                            width,
                            height,
                        ) {
                            ViewerAction::ResizeSurface
                        } else {
                            ViewerAction::Nothing
                        },
                        RenderOutcome::OutOfMemory => ViewerAction::Exit,
                        _ => ViewerAction::ReportRenderError,
                    },
                ),
                _ => (state, ViewerAction::Nothing),
            }
        },
    }
}

impl ViewerState {
    /// The state before the window exists.
    pub fn new() -> (state: Self)
        ensures
            !state.ready,
            !state.is_panning,
            !state.has_cursor,
    {
        ViewerState { ready: false, is_panning: false, has_cursor: false }
    }
}

/// Whether a surface of this size can be drawn on.
pub fn drawable_size(width: u32, height: u32) -> (drawable: bool)
    ensures
        drawable == is_drawable_size(width, height),
{
    width > 0 && height > 0
}

/// The viewer's answer to `event` in `state` (see `spec_step`).
pub fn step(state: ViewerState, event: ViewerEvent) -> (answer: (ViewerState, ViewerAction))
    ensures
        answer == spec_step(state, event),
{
    match event {
        ViewerEvent::Resumed => {
            if state.ready {
                (state, ViewerAction::Nothing)
            } else {
                (state, ViewerAction::SetUp)
            }
        },
        ViewerEvent::SetUpFinished { succeeded } => {
            if succeeded {
                (ViewerState { ready: true, ..state }, ViewerAction::Nothing)
            } else {
                (state, ViewerAction::Exit)
            }
        },
        ViewerEvent::AboutToWait => {
            if state.ready {
                (state, ViewerAction::RequestRedraw)
            } else {
                (state, ViewerAction::Nothing)
            }
        },
        ViewerEvent::Ignored => (state, ViewerAction::Nothing),
        _ => {
            if !state.ready {
                return (state, ViewerAction::Nothing);
            }
            match event {
                ViewerEvent::CloseRequested => (state, ViewerAction::Exit),
                ViewerEvent::Resized { width, height } => (
                    state,
                    ViewerAction::ResizeWindow { resize_surface: drawable_size(width, height) },
                ),
                ViewerEvent::LeftButton { pressed } => (
                    ViewerState {
                        ready: state.ready,
                        is_panning: pressed,
                        has_cursor: pressed && state.has_cursor,
                    },
                    ViewerAction::Nothing,
                ),
                ViewerEvent::CursorMoved => {
                    let action = if !state.is_panning {
                        ViewerAction::Nothing
                    } else if state.has_cursor {
                        ViewerAction::PanAndRedraw
                    } else {
                        ViewerAction::RequestRedraw
                    };
                    (ViewerState { has_cursor: true, ..state }, action)
                },
                ViewerEvent::MouseWheel => {
                    if state.has_cursor {
                        (state, ViewerAction::ZoomAtCursor)
                    } else {
                        (state, ViewerAction::ZoomAtCenter)
                    }
                },
                ViewerEvent::RedrawRequested => (state, ViewerAction::Render),
                ViewerEvent::RenderFinished { outcome, width, height } => {
                    let action = match outcome {
                        RenderOutcome::Presented => ViewerAction::Nothing,
                        RenderOutcome::Lost | RenderOutcome::Outdated => {
                            if drawable_size(width, height) {
                                ViewerAction::ResizeSurface
                            } else {
                                ViewerAction::Nothing
                            }
                        },
                        RenderOutcome::OutOfMemory => ViewerAction::Exit,
                        _ => ViewerAction::ReportRenderError,
                    };
                    (state, action)
                },
                _ => (state, ViewerAction::Nothing),
            }
        },
    }
}

/// The camera pans only while the left button is held and a previous cursor
/// position is known.
pub proof fn lemma_pan_needs_held_button_and_cursor(state: ViewerState, event: ViewerEvent)
    ensures
        spec_step(state, event).1 == ViewerAction::PanAndRedraw ==> state.ready
            && state.is_panning && state.has_cursor && event == ViewerEvent::CursorMoved,
{
}

/// Releasing the left button stops panning and forgets the cursor position,
/// so the next movement does not pan.
pub proof fn lemma_release_stops_panning(state: ViewerState)
    requires
        state.ready,
    ensures
        !spec_step(state, ViewerEvent::LeftButton { pressed: false }).0.is_panning,
        !spec_step(state, ViewerEvent::LeftButton { pressed: false }).0.has_cursor,
        spec_step(
            spec_step(state, ViewerEvent::LeftButton { pressed: false }).0,
            ViewerEvent::CursorMoved,
        ).1 == ViewerAction::Nothing,
{
}

/// The drawing surface is never configured with a zero width or height.
pub proof fn lemma_surface_size_is_drawable(state: ViewerState, event: ViewerEvent)
    ensures
        spec_step(state, event).1 == ViewerAction::ResizeSurface ==> (
        event matches ViewerEvent::RenderFinished { width, height, .. } && is_drawable_size(
            width,
            height,
        )),
        spec_step(state, event).1 == (ViewerAction::ResizeWindow { resize_surface: true }) ==> (
        event matches ViewerEvent::Resized { width, height } && is_drawable_size(width, height)),
{
}

/// Until the window is set up, the only answers are setting it up and
/// leaving when that fails, and the state changes only by becoming ready.
pub proof fn lemma_nothing_before_set_up(state: ViewerState, event: ViewerEvent)
    requires
        !state.ready,
    ensures
        spec_step(state, event).1 == ViewerAction::Nothing || spec_step(state, event).1
            == ViewerAction::SetUp || spec_step(state, event).1 == ViewerAction::Exit,
        spec_step(state, event).0 == state || spec_step(state, event).0 == (ViewerState {
            ready: true,
            ..state
        }),
{
}

/// Closing the window, and a renderer out of memory, end the viewer.
pub proof fn lemma_exit_answers(state: ViewerState, event: ViewerEvent)
    ensures
        spec_step(state, event).1 == ViewerAction::Exit <==> (state.ready && (event
            == ViewerEvent::CloseRequested || event matches ViewerEvent::RenderFinished {
            outcome: RenderOutcome::OutOfMemory,
            ..
        })) || event == (ViewerEvent::SetUpFinished { succeeded: false }),
{
}

/// Turning the wheel changes nothing that the viewer remembers, and zooms at
/// the cursor exactly when a cursor position is known.
pub proof fn lemma_wheel_keeps_state(state: ViewerState)
    ensures
        spec_step(state, ViewerEvent::MouseWheel).0 == state,
        state.ready ==> (spec_step(state, ViewerEvent::MouseWheel).1 == ViewerAction::ZoomAtCursor
            <==> state.has_cursor),
        state.ready ==> (spec_step(state, ViewerEvent::MouseWheel).1 == ViewerAction::ZoomAtCenter
            <==> !state.has_cursor),
{
}

/// A known cursor position is forgotten only when the left button is
/// released, and learned only when the cursor moves; the button state changes
/// only with a button event.
pub proof fn lemma_cursor_memory(state: ViewerState, event: ViewerEvent)
    ensures
        state.has_cursor && !spec_step(state, event).0.has_cursor ==> event == (
        ViewerEvent::LeftButton { pressed: false }),
        !state.has_cursor && spec_step(state, event).0.has_cursor ==> event
            == ViewerEvent::CursorMoved,
        spec_step(state, event).0.is_panning != state.is_panning ==> (event matches ViewerEvent::LeftButton { pressed } && pressed == spec_step(state, event).0.is_panning),
        spec_step(state, event).0.ready != state.ready ==> event == (ViewerEvent::SetUpFinished {
            succeeded: true,
        }),
{
}

/// Once the window is set up: closing exits, a redraw request renders, an
/// empty queue asks for a redraw, a resize records the size and resizes the
/// surface exactly when the size is drawable, and a frame that was lost or
/// outdated resizes the surface exactly when the window's size is drawable,
/// while a presented frame asks for nothing; before set-up, resuming sets up.
pub proof fn lemma_answers(state: ViewerState, width: u32, height: u32)
    ensures
        state.ready ==> spec_step(state, ViewerEvent::CloseRequested).1 == ViewerAction::Exit,
        state.ready ==> spec_step(state, ViewerEvent::RedrawRequested).1 == ViewerAction::Render,
        state.ready ==> spec_step(state, ViewerEvent::AboutToWait).1
            == ViewerAction::RequestRedraw,
        state.ready ==> spec_step(state, ViewerEvent::Resized { width, height }) == (
        state,
        ViewerAction::ResizeWindow { resize_surface: width > 0 && height > 0 },
        ),
        state.ready ==> (spec_step(
            state,
            ViewerEvent::RenderFinished { outcome: RenderOutcome::Lost, width, height },
        ).1 == ViewerAction::ResizeSurface <==> width > 0 && height > 0),
        state.ready ==> (spec_step(
            state,
            ViewerEvent::RenderFinished { outcome: RenderOutcome::Outdated, width, height },
        ).1 == ViewerAction::ResizeSurface <==> width > 0 && height > 0),
        spec_step(
            state,
            ViewerEvent::RenderFinished { outcome: RenderOutcome::Presented, width, height },
        ).1 == ViewerAction::Nothing,
        !state.ready ==> spec_step(state, ViewerEvent::Resumed).1 == ViewerAction::SetUp,
        state.ready ==> spec_step(state, ViewerEvent::Resumed).1 == ViewerAction::Nothing,
        spec_step(state, ViewerEvent::Ignored) == (state, ViewerAction::Nothing),
{
}

} // verus!
