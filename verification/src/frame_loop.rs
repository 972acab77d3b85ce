//! The decisions of the presentation loop: which frame each output gets in each
//! display mode, when to measure and report the frame rate, how long to sleep
//! to hold the frame rate, and the size of a span viewport. Rendering, frame
//! submission and timing are done outside the library.
use vstd::prelude::*;

verus! {

/// How the screensaver uses several outputs.
#[derive(Debug, Clone, Copy, PartialEq, Eq, Structural)]
pub enum DisplayMode {
    /// Every output renders its own frame at its own size.
    Expand,
    /// The primary renders; every other output shows that frame scaled.
    Mirror,
    /// Only the primary renders; the others are black.
    PrimaryOnly,
    /// One virtual desktop spans the outputs; each shows its part.
    Span,
}

/// An output as the loop sees it.
#[derive(Debug, Clone, Copy, PartialEq, Eq, Structural)]
pub struct OutputLayout {
    pub id: u32,
    pub width: u32,
    pub height: u32,
}

/// Where an output's frame comes from.
#[derive(Debug, Clone, Copy, PartialEq, Eq, Structural)]
pub enum FrameSource {
    /// Rendered for this output at its own size.
    RenderOwn,
    /// The frame rendered at the primary's size, as it is.
    PrimaryFrame,
    /// The frame rendered at the primary's size, scaled to this output.
    ScaledPrimary,
    /// A black frame of this output's size.
    Black,
    /// This output's part of the virtual desktop.
    Viewport,
}

/// One frame to submit.
#[derive(Debug, Clone, Copy, PartialEq, Eq, Structural)]
pub struct FrameJob {
    pub output: OutputLayout,
    pub source: FrameSource,
    /// Overlays meant for the primary output are drawn on this frame.
    pub primary_overlay: bool,
    /// The output is rendered as a secondary monitor.
    pub secondary: bool,
}

/// The outputs other than the primary, in order.
pub open spec fn others(layouts: Seq<OutputLayout>, primary: OutputLayout) -> Seq<OutputLayout> {
    layouts.filter(|l: OutputLayout| l.id != primary.id)
}

/// The frames of one round, in submission order.
pub open spec fn frame_plan_spec(mode: DisplayMode, layouts: Seq<OutputLayout>, primary: OutputLayout) -> Seq<FrameJob> {
    match mode {
        DisplayMode::Expand => layouts.map_values(
            |l: OutputLayout|
                FrameJob {
                    output: l,
                    source: FrameSource::RenderOwn,
                    primary_overlay: l.id == primary.id,
                    secondary: l.id != primary.id,
                },
        ),
        DisplayMode::Mirror => others(layouts, primary).map_values(
            |l: OutputLayout|
                FrameJob { output: l, source: FrameSource::ScaledPrimary, primary_overlay: false, secondary: false },
        ).push(FrameJob { output: primary, source: FrameSource::PrimaryFrame, primary_overlay: true, secondary: false }),
        DisplayMode::PrimaryOnly => seq![
            FrameJob { output: primary, source: FrameSource::PrimaryFrame, primary_overlay: true, secondary: false },
        ] + others(layouts, primary).map_values(
            |l: OutputLayout|
                FrameJob { output: l, source: FrameSource::Black, primary_overlay: false, secondary: false },
        ),
        DisplayMode::Span => layouts.map_values(
            |l: OutputLayout|
                FrameJob {
                    output: l,
                    source: FrameSource::Viewport,
                    primary_overlay: l.id == primary.id,
                    secondary: false,
                },
        ),
    }
}

/// The job for output `l` when every output is handled alike.
fn uniform_job(mode: DisplayMode, l: OutputLayout, primary: OutputLayout) -> (j: FrameJob)
    requires
        mode == DisplayMode::Expand || mode == DisplayMode::Span,
    ensures
        mode == DisplayMode::Expand ==> j == (FrameJob {
            output: l,
            source: FrameSource::RenderOwn,
            primary_overlay: l.id == primary.id,
            secondary: l.id != primary.id,
        }),
        mode == DisplayMode::Span ==> j == (FrameJob {
            output: l,
            source: FrameSource::Viewport,
            primary_overlay: l.id == primary.id,
            secondary: false,
        }),
{
    match mode {
        DisplayMode::Span => FrameJob {
            output: l,
            source: FrameSource::Viewport,
            primary_overlay: l.id == primary.id,
            secondary: false,
        },
        _ => FrameJob {
            output: l,
            source: FrameSource::RenderOwn,
            primary_overlay: l.id == primary.id,
            secondary: l.id != primary.id,
        },
    }
}

/// Appends a job of `source` for each output other than the primary.
fn push_others(jobs: &mut Vec<FrameJob>, layouts: &[OutputLayout], primary: OutputLayout, source: FrameSource)
    ensures
        final(jobs)@ == old(jobs)@ + others(layouts@, primary).map_values(
            |l: OutputLayout| FrameJob { output: l, source, primary_overlay: false, secondary: false },
        ),
{
    let ghost start = jobs@;
    let ghost f = |l: OutputLayout| FrameJob { output: l, source, primary_overlay: false, secondary: false };
    let ghost pred = |l: OutputLayout| l.id != primary.id;
    let mut i: usize = 0;
    while i < layouts.len()
        invariant
            0 <= i <= layouts@.len(),
            f == (|l: OutputLayout| FrameJob { output: l, source, primary_overlay: false, secondary: false }),
            pred == (|l: OutputLayout| l.id != primary.id),
            jobs@ == start + layouts@.take(i as int).filter(pred).map_values(f),
        decreases layouts@.len() - i,
    {
        proof {
            reveal_with_fuel(Seq::filter, 1);
            assert(layouts@.take(i + 1).drop_last() =~= layouts@.take(i as int));
        }
        let l = layouts[i];
        if l.id != primary.id {
            jobs.push(FrameJob { output: l, source, primary_overlay: false, secondary: false });
            assert(jobs@ =~= start + layouts@.take(i + 1).filter(pred).map_values(f));
        } else {
            assert(jobs@ =~= start + layouts@.take(i + 1).filter(pred).map_values(f));
        }
        i = i + 1;
    }
    assert(layouts@.take(i as int) =~= layouts@);
}

/// The frames of one round of the presentation loop, in submission order:
/// in `Expand` every output renders its own frame (the others as secondary
/// monitors); in `Mirror` the primary's frame is scaled to each other output,
/// then shown on the primary; in `PrimaryOnly` the primary's frame is shown,
/// then the others get black frames; in `Span` each output shows its part of
/// the virtual desktop. Primary overlays go on the primary's frame only.
pub fn plan_frames(mode: DisplayMode, layouts: &[OutputLayout], primary: OutputLayout) -> (jobs: Vec<FrameJob>)
    ensures
        jobs@ == frame_plan_spec(mode, layouts@, primary),
{
    let mut jobs: Vec<FrameJob> = Vec::new();
    match mode {
        DisplayMode::Expand | DisplayMode::Span => {
            let mut i: usize = 0;
            while i < layouts.len()
                invariant
                    0 <= i <= layouts@.len(),
                    mode == DisplayMode::Expand || mode == DisplayMode::Span,
                    jobs@ == frame_plan_spec(mode, layouts@.take(i as int), primary),
                decreases layouts@.len() - i,
            {
                jobs.push(uniform_job(mode, layouts[i], primary));
                i = i + 1;
                assert(jobs@ =~= frame_plan_spec(mode, layouts@.take(i as int), primary));
            }
            assert(layouts@.take(i as int) =~= layouts@);
        },
        DisplayMode::Mirror => {
            push_others(&mut jobs, layouts, primary, FrameSource::ScaledPrimary);
            jobs.push(FrameJob { output: primary, source: FrameSource::PrimaryFrame, primary_overlay: true, secondary: false });
            assert(jobs@ =~= frame_plan_spec(mode, layouts@, primary));
        },
        DisplayMode::PrimaryOnly => {
            jobs.push(FrameJob { output: primary, source: FrameSource::PrimaryFrame, primary_overlay: true, secondary: false });
            push_others(&mut jobs, layouts, primary, FrameSource::Black);
            assert(jobs@ =~= frame_plan_spec(mode, layouts@, primary));
        },
    }
    jobs
}

/// What to do about the frame rate after a frame.
#[derive(Debug, Clone, Copy, PartialEq, Eq, Structural)]
pub enum FpsReport {
    /// Less than a second since the last report: nothing.
    Wait,
    /// Measure the achieved rate and keep counting.
    Measure,
    /// Measure the achieved rate, report it, and restart the count.
    MeasureAndReset,
}

/// One second and five seconds, in nanoseconds.
pub const SECOND_NS: u64 = 1_000_000_000;
pub const REPORT_MAX_NS: u64 = 5_000_000_000;

/// The frame-rate decision, given the frames counted (this one included), the
/// time since the last report and the target rate rounded down: nothing
/// before a second has passed; then measure, and also report and restart once
/// the target number of frames was reached or five seconds have passed.
pub fn fps_report(frame_counter: u64, since_report_ns: u64, target_fps: u64) -> (r: FpsReport)
    ensures
        r == (if since_report_ns < SECOND_NS {
            FpsReport::Wait
        } else if frame_counter >= target_fps || since_report_ns >= REPORT_MAX_NS {
            FpsReport::MeasureAndReset
        } else {
            FpsReport::Measure
        }),
{
    if since_report_ns < SECOND_NS {
        FpsReport::Wait
    } else if frame_counter >= target_fps || since_report_ns >= REPORT_MAX_NS {
        FpsReport::MeasureAndReset
    } else {
        FpsReport::Measure
    }
}

/// How long to sleep after a frame that took `elapsed_ns` to hold a frame
/// duration of `frame_ns`: the remainder, or nothing when the frame was late.
pub fn frame_sleep_ns(elapsed_ns: u64, frame_ns: u64) -> (r: Option<u64>)
    ensures
        r == (if elapsed_ns < frame_ns {
            Some((frame_ns - elapsed_ns) as u64)
        } else {
            None
        }),
{
    if elapsed_ns < frame_ns {
        Some(frame_ns - elapsed_ns)
    } else {
        None
    }
}

/// The number of cells a viewport spans from `start` to `end`: at least one.
pub fn viewport_extent(start: usize, end: usize) -> (n: usize)
    ensures
        n == (if end > start + 1 {
            end - start
        } else {
            1
        }),
{
    let d = end.saturating_sub(start);
    if d > 1 {
        d
    } else {
        1
    }
}


/// Overlays meant for the primary output are drawn on the primary's frame only.
pub proof fn law_primary_overlay_only_on_primary(mode: DisplayMode, layouts: Seq<OutputLayout>, primary: OutputLayout)
    ensures
        forall|k: int|
            0 <= k < frame_plan_spec(mode, layouts, primary).len() && (#[trigger] frame_plan_spec(
                mode,
                layouts,
                primary,
            )[k]).primary_overlay ==> frame_plan_spec(mode, layouts, primary)[k].output.id == primary.id,
{
}

/// Each output is drawn once per round: in `Expand` and `Span` one frame per
/// output in order; in `Mirror` and `PrimaryOnly` one frame for the primary
/// and one for each other output, none of which is the primary.
pub proof fn law_one_frame_per_output(mode: DisplayMode, layouts: Seq<OutputLayout>, primary: OutputLayout)
    ensures
        (mode == DisplayMode::Expand || mode == DisplayMode::Span) ==> {
            &&& frame_plan_spec(mode, layouts, primary).len() == layouts.len()
            &&& forall|k: int|
                0 <= k < layouts.len() ==> #[trigger] frame_plan_spec(mode, layouts, primary)[k].output
                    == layouts[k]
        },
        (mode == DisplayMode::Mirror || mode == DisplayMode::PrimaryOnly) ==> {
            &&& frame_plan_spec(mode, layouts, primary).len() == others(layouts, primary).len() + 1
            &&& forall|k: int|
                0 <= k < others(layouts, primary).len() ==> (#[trigger] others(layouts, primary)[k]).id
                    != primary.id
        },
{
    let pred = |l: OutputLayout| l.id != primary.id;
    assert forall|k: int| 0 <= k < others(layouts, primary).len() implies (#[trigger] others(layouts, primary)[k]).id
        != primary.id by {
        layouts.lemma_filter_pred(pred, k);
    }
}

} // verus!
