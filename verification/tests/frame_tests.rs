use trance::frame_loop::{
    fps_report, frame_sleep_ns, plan_frames, viewport_extent, DisplayMode, FpsReport, FrameJob, FrameSource,
    OutputLayout,
};

fn out(id: u32) -> OutputLayout {
    OutputLayout { id, width: 100 * id, height: 50 * id }
}

fn job(id: u32, source: FrameSource, primary_overlay: bool, secondary: bool) -> FrameJob {
    FrameJob { output: out(id), source, primary_overlay, secondary }
}

#[test]
fn expand_renders_every_output() {
    let layouts = [out(1), out(2), out(3)];
    let jobs = plan_frames(DisplayMode::Expand, &layouts, out(2));
    assert_eq!(
        jobs,
        vec![
            job(1, FrameSource::RenderOwn, false, true),
            job(2, FrameSource::RenderOwn, true, false),
            job(3, FrameSource::RenderOwn, false, true),
        ]
    );
}

#[test]
fn mirror_scales_primary_then_shows_it() {
    let layouts = [out(1), out(2), out(3)];
    let jobs = plan_frames(DisplayMode::Mirror, &layouts, out(2));
    assert_eq!(
        jobs,
        vec![
            job(1, FrameSource::ScaledPrimary, false, false),
            job(3, FrameSource::ScaledPrimary, false, false),
            job(2, FrameSource::PrimaryFrame, true, false),
        ]
    );
}

#[test]
fn primary_only_blacks_out_others() {
    let layouts = [out(1), out(2)];
    let jobs = plan_frames(DisplayMode::PrimaryOnly, &layouts, out(1));
    assert_eq!(
        jobs,
        vec![job(1, FrameSource::PrimaryFrame, true, false), job(2, FrameSource::Black, false, false)]
    );
}

#[test]
fn span_gives_each_output_its_viewport() {
    let layouts = [out(1), out(2)];
    let jobs = plan_frames(DisplayMode::Span, &layouts, out(2));
    assert_eq!(
        jobs,
        vec![job(1, FrameSource::Viewport, false, false), job(2, FrameSource::Viewport, true, false)]
    );
}

#[test]
fn fps_report_decisions() {
    assert_eq!(fps_report(100, 999_999_999, 60), FpsReport::Wait);
    assert_eq!(fps_report(30, 1_000_000_000, 60), FpsReport::Measure);
    assert_eq!(fps_report(60, 1_000_000_000, 60), FpsReport::MeasureAndReset);
    assert_eq!(fps_report(1, 5_000_000_000, 60), FpsReport::MeasureAndReset);
}

#[test]
fn frame_pacing() {
    assert_eq!(frame_sleep_ns(4, 10), Some(6));
    assert_eq!(frame_sleep_ns(10, 10), None);
    assert_eq!(frame_sleep_ns(12, 10), None);
}

#[test]
fn viewport_extent_at_least_one() {
    assert_eq!(viewport_extent(3, 10), 7);
    assert_eq!(viewport_extent(5, 5), 1);
    assert_eq!(viewport_extent(9, 2), 1);
}
