//! Export plumbing the editor shares with its render thread: the events a
//! running export streams back, the handle that cancels it, the delivery
//! size presets, and the layer-mask texture format.

use std::path::PathBuf;
use std::sync::atomic::AtomicBool;
use std::sync::mpsc::Receiver;
use std::sync::Arc;
use vstd::prelude::*;

verus! {

/// A filesystem path, carried through unchanged.
#[verifier::external_type_specification]
#[verifier::external_body]
pub struct ExPathBuf(PathBuf);

/// The receiving end of a channel, carried through unchanged.
#[verifier::external_type_specification]
#[verifier::external_body]
#[verifier::reject_recursive_types(T)]
pub struct ExReceiver<T>(Receiver<T>);

/// What a running export reports.
pub enum ExportEvent {
    /// `frame` of `total` frames written.
    Progress { frame: usize, total: usize },
    /// Finished; the file is at the path.
    Done(PathBuf),
    /// Stopped with a reason ("cancelled" when cancelled).
    Failed(String),
}

/// A running export: its event stream and its cancel flag.
pub struct ExportHandle {
    pub events: Receiver<ExportEvent>,
    cancel: Arc<AtomicBool>,
}

impl ExportHandle {
    /// The cancel flag the render loop checks.
    pub closed spec fn flag(self) -> Arc<AtomicBool> {
        self.cancel
    }

    /// The event stream the handle reads.
    pub closed spec fn stream(self) -> Receiver<ExportEvent> {
        self.events
    }

    /// A handle over an export's event stream and the flag its render loop
    /// checks every frame.
    pub fn new(events: Receiver<ExportEvent>, cancel: Arc<AtomicBool>) -> (r: ExportHandle)
        ensures
            r.stream() == events,
            r.flag() == cancel,
    {
        ExportHandle { events, cancel }
    }

    /// Ask the export to stop: raises the flag the render loop checks
    /// before every frame.
    pub fn cancel(&self) {
        self.cancel.store(true, std::sync::atomic::Ordering::Relaxed);
    }
}

/// A named export size. Native keeps the composition's own resolution; the
/// others letterbox the comp into a standard delivery frame.
#[derive(Clone, Copy, PartialEq, Eq, Structural)]
pub enum ExportPreset {
    Native,
    Youtube1080,
    Youtube2160,
    Vertical1080,
}

impl ExportPreset {
    /// The target pixel size for this preset given the comp's own size.
    pub fn target(self, comp_w: u32, comp_h: u32) -> (r: (u32, u32))
        ensures
            r == match self {
                ExportPreset::Native => (comp_w, comp_h),
                ExportPreset::Youtube1080 => (1920u32, 1080u32),
                ExportPreset::Youtube2160 => (3840u32, 2160u32),
                ExportPreset::Vertical1080 => (1080u32, 1920u32),
            },
    {
        match self {
            ExportPreset::Native => (comp_w, comp_h),
            ExportPreset::Youtube1080 => (1920, 1080),
            ExportPreset::Youtube2160 => (3840, 2160),
            ExportPreset::Vertical1080 => (1080, 1920),
        }
    }

    /// The preset's menu label.
    pub fn label(self) -> (r: &'static str)
        ensures
            r@ == match self {
                ExportPreset::Native => "Native (comp size)"@,
                ExportPreset::Youtube1080 => "YouTube 1080p"@,
                ExportPreset::Youtube2160 => "YouTube 4K"@,
                ExportPreset::Vertical1080 => "Vertical 1080×1920"@,
            },
    {
        match self {
            ExportPreset::Native => "Native (comp size)",
            ExportPreset::Youtube1080 => "YouTube 1080p",
            ExportPreset::Youtube2160 => "YouTube 4K",
            ExportPreset::Vertical1080 => "Vertical 1080×1920",
        }
    }
}

/// Coverage bytes → white RGBA whose alpha is the coverage (the layer-mask
/// texture format the compositor samples): four bytes per coverage byte.
pub fn mask_rgba(coverage: &[u8]) -> (r: Vec<u8>)
    requires
        coverage@.len() * 4 <= usize::MAX,
    ensures
        r@.len() == coverage@.len() * 4,
        forall|i: int|
            0 <= i < coverage@.len() ==> {
                &&& #[trigger] r@[4 * i] == 255u8
                &&& r@[4 * i + 1] == 255u8
                &&& r@[4 * i + 2] == 255u8
                &&& r@[4 * i + 3] == coverage@[i]
            },
{
    let mut out: Vec<u8> = Vec::new();
    for i in 0..coverage.len()
        invariant
            out@.len() == 4 * i,
            forall|k: int|
                0 <= k < i ==> {
                    &&& #[trigger] out@[4 * k] == 255u8
                    &&& out@[4 * k + 1] == 255u8
                    &&& out@[4 * k + 2] == 255u8
                    &&& out@[4 * k + 3] == coverage@[k]
                },
    {
        let c = coverage[i];
        out.push(255);
        out.push(255);
        out.push(255);
        out.push(c);
        assert forall|k: int| 0 <= k < i + 1 implies {
            &&& #[trigger] out@[4 * k] == 255u8
            &&& out@[4 * k + 1] == 255u8
            &&& out@[4 * k + 2] == 255u8
            &&& out@[4 * k + 3] == coverage@[k]
        } by {
            if k < i {
                assert(out@[4 * k] == 255u8);
            }
        }
    }
    out
}

} // verus!
