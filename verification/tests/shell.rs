use cubic::shell::{
    acquire_action, resume_action, surface_extent, window_event_action, AcquireAction, FpsAction,
    FpsWindow, ResumeAction, ShellAction, ShellEvent, SurfaceStatus, FPS_PERIOD_NANOS,
};

#[test]
fn surface_extent_is_at_least_one_pixel() {
    assert_eq!(surface_extent(0, 0), (1, 1));
    assert_eq!(surface_extent(960, 0), (960, 1));
    assert_eq!(surface_extent(960, 540), (960, 540));
}

#[test]
fn window_events_map_to_shell_actions() {
    assert_eq!(window_event_action(ShellEvent::CloseRequested), ShellAction::Exit);
    assert_eq!(
        window_event_action(ShellEvent::Resized { width: 800, height: 600 }),
        ShellAction::Resize { width: 800, height: 600 }
    );
    assert_eq!(window_event_action(ShellEvent::Resized { width: 0, height: 600 }), ShellAction::Ignore);
    assert_eq!(window_event_action(ShellEvent::Resized { width: 800, height: 0 }), ShellAction::Ignore);
    assert_eq!(window_event_action(ShellEvent::RedrawRequested), ShellAction::RenderAndRedraw);
    assert_eq!(window_event_action(ShellEvent::Other), ShellAction::Ignore);
}

#[test]
fn resume_initializes_only_once() {
    assert_eq!(resume_action(false), ResumeAction::Initialize);
    assert_eq!(resume_action(true), ResumeAction::RequestRedraw);
}

#[test]
fn surface_status_decides_the_frame() {
    assert_eq!(acquire_action(SurfaceStatus::Success), AcquireAction::Draw);
    assert_eq!(acquire_action(SurfaceStatus::Timeout), AcquireAction::Skip);
    assert_eq!(acquire_action(SurfaceStatus::Occluded), AcquireAction::Skip);
    assert_eq!(acquire_action(SurfaceStatus::Suboptimal), AcquireAction::ReconfigureAndSkip);
    assert_eq!(acquire_action(SurfaceStatus::Outdated), AcquireAction::ReconfigureAndSkip);
    assert_eq!(acquire_action(SurfaceStatus::Lost), AcquireAction::RecreateAndSkip);
}

#[test]
fn fps_window_reports_after_a_full_period() {
    let mut fps = FpsWindow::new();
    assert_eq!(fps.frame_presented(0), FpsAction::OpenWindow);
    assert_eq!(fps.frames_in_window, 1);
    assert_eq!(fps.frame_presented(FPS_PERIOD_NANOS / 2), FpsAction::Keep);
    assert_eq!(fps.frame_presented(FPS_PERIOD_NANOS - 1), FpsAction::Keep);
    assert_eq!(fps.frame_presented(FPS_PERIOD_NANOS), FpsAction::Report { frames: 4 });
    assert_eq!(fps.frames_in_window, 0);
    assert!(fps.started);
    assert_eq!(fps.frame_presented(10), FpsAction::Keep);
    assert_eq!(fps.frames_in_window, 1);
}
