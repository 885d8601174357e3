use vstd::prelude::*;

verus! {

/// The surface extent to configure for a window of the given size: a
/// zero-sized surface cannot be configured, so each side is at least 1.
pub fn surface_extent(width: u32, height: u32) -> (r: (u32, u32))
    ensures
        r.0 == (if width >= 1 { width } else { 1 }),
        r.1 == (if height >= 1 { height } else { 1 }),
{
    let w = if width >= 1 { width } else { 1 };
    let h = if height >= 1 { height } else { 1 };
    (w, h)
}

/// The window events the shell reacts to.
#[derive(Clone, Copy, PartialEq, Eq, Debug, Structural)]
pub enum ShellEvent {
    CloseRequested,
    Resized { width: u32, height: u32 },
    RedrawRequested,
    Other,
}

/// What the shell does in answer to a window event.
#[derive(Clone, Copy, PartialEq, Eq, Debug, Structural)]
pub enum ShellAction {
    /// Leave the event loop.
    Exit,
    /// Reconfigure the surface to the new size.
    Resize { width: u32, height: u32 },
    /// Render a frame, then ask for the next redraw.
    RenderAndRedraw,
    /// Nothing to do.
    Ignore,
}

/// The shell's answer to `event`. A resize to a zero-sized (minimized)
/// window is skipped, since such a surface cannot be configured.
pub open spec fn shell_action(event: ShellEvent) -> ShellAction {
    match event {
        ShellEvent::CloseRequested => ShellAction::Exit,
        ShellEvent::Resized { width, height } => if width > 0 && height > 0 {
            ShellAction::Resize { width, height }
        } else {
            ShellAction::Ignore
        },
        ShellEvent::RedrawRequested => ShellAction::RenderAndRedraw,
        ShellEvent::Other => ShellAction::Ignore,
    }
}

/// Decides how the shell answers a window event.
pub fn window_event_action(event: ShellEvent) -> (r: ShellAction)
    ensures
        r == shell_action(event),
{
    match event {
        ShellEvent::CloseRequested => ShellAction::Exit,
        ShellEvent::Resized { width, height } => {
            if width > 0 && height > 0 {
                ShellAction::Resize { width, height }
            } else {
                ShellAction::Ignore
            }
        },
        ShellEvent::RedrawRequested => ShellAction::RenderAndRedraw,
        ShellEvent::Other => ShellAction::Ignore,
    }
}

/// What the shell does when the platform resumes it.
#[derive(Clone, Copy, PartialEq, Eq, Debug, Structural)]
pub enum ResumeAction {
    /// The GPU state exists already: only ask for a redraw.
    RequestRedraw,
    /// Create the window, surface and device.
    Initialize,
}

/// Decides how to handle a resume. Platforms may resume more than once;
/// the GPU state is created only on the first one.
pub fn resume_action(gpu_ready: bool) -> (r: ResumeAction)
    ensures
        gpu_ready ==> r == ResumeAction::RequestRedraw,
        !gpu_ready ==> r == ResumeAction::Initialize,
{
    if gpu_ready {
        ResumeAction::RequestRedraw
    } else {
        ResumeAction::Initialize
    }
}

/// Outcome of asking the surface for its next texture.
#[derive(Clone, Copy, PartialEq, Eq, Debug, Structural)]
pub enum SurfaceStatus {
    Success,
    Suboptimal,
    Timeout,
    Occluded,
    Outdated,
    Lost,
}

/// What to do with the frame after asking the surface for a texture.
#[derive(Clone, Copy, PartialEq, Eq, Debug, Structural)]
pub enum AcquireAction {
    /// Draw into the acquired texture and present it.
    Draw,
    /// Skip this frame.
    Skip,
    /// Release any texture, reconfigure the surface and skip this frame.
    ReconfigureAndSkip,
    /// Recreate the lost surface, configure it and skip this frame.
    RecreateAndSkip,
}

/// The shell's answer to a surface status.
pub open spec fn acquire_answer(status: SurfaceStatus) -> AcquireAction {
    match status {
        SurfaceStatus::Success => AcquireAction::Draw,
        SurfaceStatus::Occluded => AcquireAction::Skip,
        SurfaceStatus::Timeout => AcquireAction::Skip,
        SurfaceStatus::Suboptimal => AcquireAction::ReconfigureAndSkip,
        SurfaceStatus::Outdated => AcquireAction::ReconfigureAndSkip,
        SurfaceStatus::Lost => AcquireAction::RecreateAndSkip,
    }
}

/// Decides what to do with a frame given the surface status.
pub fn acquire_action(status: SurfaceStatus) -> (r: AcquireAction)
    ensures
        r == acquire_answer(status),
{
    match status {
        SurfaceStatus::Success => AcquireAction::Draw,
        SurfaceStatus::Occluded => AcquireAction::Skip,
        SurfaceStatus::Timeout => AcquireAction::Skip,
        SurfaceStatus::Suboptimal => AcquireAction::ReconfigureAndSkip,
        SurfaceStatus::Outdated => AcquireAction::ReconfigureAndSkip,
        SurfaceStatus::Lost => AcquireAction::RecreateAndSkip,
    }
}

/// Length of the window over which the presentation rate is measured, in
/// nanoseconds (one second).
pub const FPS_PERIOD_NANOS: u64 = 1_000_000_000;

/// What to do after a presented frame has been counted.
#[derive(Clone, Copy, PartialEq, Eq, Debug, Structural)]
pub enum FpsAction {
    /// The first frame: start the measuring window now.
    OpenWindow,
    /// The window has lasted a full period: report `frames` presented
    /// frames over the elapsed time and start a new window now.
    Report { frames: u32 },
    /// Keep counting.
    Keep,
}

/// Counts presented frames over a measuring window.
pub struct FpsWindow {
    /// Frames presented since the current window started.
    pub frames_in_window: u32,
    /// Whether a measuring window has started.
    pub started: bool,
}

impl FpsWindow {
    /// No frame counted, no window started.
    pub fn new() -> (r: FpsWindow)
        ensures
            r.frames_in_window == 0,
            !r.started,
    {
        FpsWindow { frames_in_window: 0, started: false }
    }

    /// Counts one presented frame, `elapsed_nanos` after the window started
    /// (ignored while no window has started).
    pub fn frame_presented(&mut self, elapsed_nanos: u64) -> (r: FpsAction)
        requires
            old(self).frames_in_window < u32::MAX,
        ensures
            final(self).started,
            !old(self).started ==> {
                &&& r == FpsAction::OpenWindow
                &&& final(self).frames_in_window == old(self).frames_in_window + 1
            },
            old(self).started && elapsed_nanos >= FPS_PERIOD_NANOS ==> {
                &&& r == (FpsAction::Report { frames: (old(self).frames_in_window + 1) as u32 })
                &&& final(self).frames_in_window == 0
            },
            old(self).started && elapsed_nanos < FPS_PERIOD_NANOS ==> {
                &&& r == FpsAction::Keep
                &&& final(self).frames_in_window == old(self).frames_in_window + 1
            },
    {
        self.frames_in_window = self.frames_in_window + 1;
        if !self.started {
            self.started = true;
            FpsAction::OpenWindow
        } else if elapsed_nanos >= FPS_PERIOD_NANOS {
            let frames = self.frames_in_window;
            self.frames_in_window = 0;
            FpsAction::Report { frames }
        } else {
            FpsAction::Keep
        }
    }
}

/// Every window event gets the shell's documented answer: a close request
/// exits, a redraw request renders and asks for the next redraw, a resize to
/// any size with both sides non-zero reconfigures the surface to exactly
/// that size (whatever its aspect ratio), and a resize with a zero side, or
/// any other event, is ignored.
pub proof fn law_window_event_answers(width: u32, height: u32)
    ensures
        shell_action(ShellEvent::CloseRequested) == ShellAction::Exit,
        shell_action(ShellEvent::RedrawRequested) == ShellAction::RenderAndRedraw,
        shell_action(ShellEvent::Other) == ShellAction::Ignore,
        width > 0 && height > 0 ==> shell_action(ShellEvent::Resized { width, height })
            == (ShellAction::Resize { width, height }),
        width == 0 || height == 0 ==> shell_action(ShellEvent::Resized { width, height })
            == ShellAction::Ignore,
{
}

/// Every surface status gets the shell's documented answer: a good texture
/// is drawn, a timeout or an occluded window skips the frame, a suboptimal
/// or outdated surface is reconfigured, and a lost one is recreated.
pub proof fn law_surface_status_answers()
    ensures
        acquire_answer(SurfaceStatus::Success) == AcquireAction::Draw,
        acquire_answer(SurfaceStatus::Timeout) == AcquireAction::Skip,
        acquire_answer(SurfaceStatus::Occluded) == AcquireAction::Skip,
        acquire_answer(SurfaceStatus::Suboptimal) == AcquireAction::ReconfigureAndSkip,
        acquire_answer(SurfaceStatus::Outdated) == AcquireAction::ReconfigureAndSkip,
        acquire_answer(SurfaceStatus::Lost) == AcquireAction::RecreateAndSkip,
{
}

} // verus!
