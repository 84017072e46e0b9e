//! Render jobs of the desktop front end: one export at a time, each in a
//! directory of its own, saved through a dialog that suits the format.

use vstd::prelude::*;
use crate::export::ExportFormat;
use crate::text::{decimal, push_decimal};

verus! {

/// Whether a render is under way; at most one runs at a time.
pub struct RenderQueue {
    running: bool,
}

impl RenderQueue {
    /// Whether a render is under way.
    pub closed spec fn busy(&self) -> bool {
        self.running
    }

    /// An idle queue.
    pub fn new() -> (q: Self)
        ensures
            !q.busy(),
    {
        RenderQueue { running: false }
    }

    /// Whether a render is under way.
    pub fn is_running(&self) -> (r: bool)
        ensures
            r == self.busy(),
    {
        self.running
    }

    /// Starts a render unless one is under way, which is refused.
    pub fn try_begin(&mut self) -> (r: Result<(), String>)
        ensures
            final(self).busy(),
            old(self).busy() <==> r is Err,
            r matches Err(m) ==> m@ == "A render is already in progress"@,
    {
        if self.running {
            return Err(String::from_str("A render is already in progress"));
        }
        self.running = true;
        Ok(())
    }

    /// Marks the queue idle or busy once a render has ended or been restarted.
    pub fn finish(&mut self, running: bool)
        ensures
            final(self).busy() == running,
    {
        self.running = running;
    }
}

/// `render_` and the timestamp in decimal.
pub open spec fn job_dir_name_spec(stamp: u64) -> Seq<char> {
    "render_"@ + decimal(stamp as nat)
}

/// The name of the directory of a render job started at `stamp` seconds.
pub fn job_dir_name(stamp: u64) -> (name: String)
    ensures
        name@ == job_dir_name_spec(stamp),
{
    let mut s = String::from_str("render_");
    push_decimal(&mut s, stamp);
    s
}

/// What a save dialog for an export shows: its title, the name of its file
/// filter, the extension it filters on, and the suggested file name.
pub open spec fn dialog_labels_spec(format: ExportFormat) -> (Seq<char>, Seq<char>, Seq<char>, Seq<char>) {
    match format {
        ExportFormat::Mp4 => ("Export MP4"@, "MP4 Video"@, "mp4"@, "frameseed.mp4"@),
        ExportFormat::Gif => ("Export GIF"@, "GIF Animation"@, "gif"@, "frameseed.gif"@),
        ExportFormat::WebM => ("Export WebM"@, "WebM Video"@, "webm"@, "frameseed.webm"@),
    }
}

/// Title, filter name, extension and suggested file name of the save dialog
/// for an export in `format`.
pub fn dialog_labels(format: ExportFormat) -> (l: (&'static str, &'static str, &'static str, &'static str))
    ensures
        (l.0@, l.1@, l.2@, l.3@) == dialog_labels_spec(format),
{
    match format {
        ExportFormat::Mp4 => ("Export MP4", "MP4 Video", "mp4", "frameseed.mp4"),
        ExportFormat::Gif => ("Export GIF", "GIF Animation", "gif", "frameseed.gif"),
        ExportFormat::WebM => ("Export WebM", "WebM Video", "webm", "frameseed.webm"),
    }
}

} // verus!
