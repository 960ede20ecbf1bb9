//! Progress reporting decisions: which record a wimlib progress message
//! carries, what the bar's label is, and when its length is fixed.
//! Drawing the bar is left to the caller.

use vstd::prelude::*;
use crate::types::{
    ProgressInfoExtract, ProgressInfoIntegrity, ProgressInfoWriteStreams,
    WIMLIB_PROGRESS_MSG_EXTRACT_FILE_STRUCTURE, WIMLIB_PROGRESS_MSG_WRITE_STREAMS,
    WIMLIB_PROGRESS_MSG_EXTRACT_IMAGE_BEGIN, WIMLIB_PROGRESS_MSG_EXTRACT_IMAGE_END,
    WIMLIB_PROGRESS_MSG_EXTRACT_METADATA, WIMLIB_PROGRESS_MSG_EXTRACT_SPWM_PART_BEGIN,
    WIMLIB_PROGRESS_MSG_EXTRACT_STREAMS, WIMLIB_PROGRESS_MSG_VERIFY_INTEGRITY,
};

verus! {

/// Kind of long-running task, which sets the progress bar's label.
#[derive(Clone, Copy, PartialEq, Eq, Structural)]
pub enum ProgressKind {
    Verify,
    Extract,
    Convert,
    Capture,
    Split,
    Join,
    Optimize,
}

/// Label shown in front of the progress bar for each task kind.
pub open spec fn kind_label(kind: ProgressKind) -> Seq<char> {
    match kind {
        ProgressKind::Verify => "校验"@,
        ProgressKind::Extract => "解包"@,
        ProgressKind::Convert => "转换"@,
        ProgressKind::Capture => "制作"@,
        ProgressKind::Split => "分卷"@,
        ProgressKind::Join => "合并"@,
        ProgressKind::Optimize => "优化"@,
    }
}

impl ProgressKind {
    /// Text shown in front of the progress bar of a task of this kind.
    pub fn prefix(&self) -> (r: &'static str)
        ensures
            r@ == kind_label(*self),
    {
        match self {
            ProgressKind::Verify => "校验",
            ProgressKind::Extract => "解包",
            ProgressKind::Convert => "转换",
            ProgressKind::Capture => "制作",
            ProgressKind::Split => "分卷",
            ProgressKind::Join => "合并",
            ProgressKind::Optimize => "优化",
        }
    }
}

/// What a wimlib progress message asks of the bar.
pub enum ProgressMessage {
    /// File data is being extracted: read the `extract` record's byte counts.
    ExtractBytes,
    /// The integrity table is being checked: read the `integrity` record's byte counts.
    IntegrityBytes,
    /// Data is being written (convert, capture, split, join, optimize): read
    /// the `write_streams` record's byte counts.
    WriteBytes,
    /// A new stage has begun; its name goes into the label.
    Stage(&'static str),
    /// Nothing to show.
    Ignore,
}

/// Name of the stage that a message starts, if it starts one.
pub open spec fn stage_of(msg: i32) -> Option<Seq<char>> {
    if msg == WIMLIB_PROGRESS_MSG_EXTRACT_IMAGE_BEGIN {
        Some("准备"@)
    } else if msg == WIMLIB_PROGRESS_MSG_EXTRACT_FILE_STRUCTURE {
        Some("目录结构"@)
    } else if msg == WIMLIB_PROGRESS_MSG_EXTRACT_METADATA {
        Some("元数据"@)
    } else if msg == WIMLIB_PROGRESS_MSG_EXTRACT_SPWM_PART_BEGIN {
        Some("分卷"@)
    } else if msg == WIMLIB_PROGRESS_MSG_EXTRACT_IMAGE_END {
        Some("收尾"@)
    } else {
        None
    }
}

/// Sorts a wimlib progress message type into what the bar does with it.
pub fn classify_message(msg: i32) -> (r: ProgressMessage)
    ensures
        msg == WIMLIB_PROGRESS_MSG_EXTRACT_STREAMS <==> r is ExtractBytes,
        msg == WIMLIB_PROGRESS_MSG_VERIFY_INTEGRITY <==> r is IntegrityBytes,
        msg == WIMLIB_PROGRESS_MSG_WRITE_STREAMS <==> r is WriteBytes,
        match stage_of(msg) {
            Some(name) => r matches ProgressMessage::Stage(s) && s@ == name,
            None => !(r is Stage),
        },
        r is Ignore <==> (msg != WIMLIB_PROGRESS_MSG_EXTRACT_STREAMS
            && msg != WIMLIB_PROGRESS_MSG_VERIFY_INTEGRITY && msg
            != WIMLIB_PROGRESS_MSG_WRITE_STREAMS && stage_of(msg) is None),
{
    if msg == WIMLIB_PROGRESS_MSG_EXTRACT_STREAMS {
        ProgressMessage::ExtractBytes
    } else if msg == WIMLIB_PROGRESS_MSG_VERIFY_INTEGRITY {
        ProgressMessage::IntegrityBytes
    } else if msg == WIMLIB_PROGRESS_MSG_WRITE_STREAMS {
        ProgressMessage::WriteBytes
    } else if msg == WIMLIB_PROGRESS_MSG_EXTRACT_IMAGE_BEGIN {
        ProgressMessage::Stage("准备")
    } else if msg == WIMLIB_PROGRESS_MSG_EXTRACT_FILE_STRUCTURE {
        ProgressMessage::Stage("目录结构")
    } else if msg == WIMLIB_PROGRESS_MSG_EXTRACT_METADATA {
        ProgressMessage::Stage("元数据")
    } else if msg == WIMLIB_PROGRESS_MSG_EXTRACT_SPWM_PART_BEGIN {
        ProgressMessage::Stage("分卷")
    } else if msg == WIMLIB_PROGRESS_MSG_EXTRACT_IMAGE_END {
        ProgressMessage::Stage("收尾")
    } else {
        ProgressMessage::Ignore
    }
}

/// What to do to the bar after a byte-count report.
pub struct BarUpdate {
    /// Length to give the bar first, if it is to be set now.
    pub set_length: Option<u64>,
    /// New position of the bar.
    pub position: u64,
}

/// How the bar is left when the task ends.
#[derive(PartialEq, Eq, Structural)]
pub enum BarEnd {
    /// Filled and kept, the task succeeded.
    Finish,
    /// Left where it stopped, the task failed.
    Abandon,
}

/// State of one task's progress bar: its kind and whether its total length
/// has been fixed yet.
pub struct ProgressState {
    kind: ProgressKind,
    length_set: bool,
}

impl ProgressState {
    /// The task kind.
    pub closed spec fn task(&self) -> ProgressKind {
        self.kind
    }

    /// Whether the bar's total length has been set.
    pub closed spec fn has_length(&self) -> bool {
        self.length_set
    }

    /// A fresh bar for a task of kind `kind`, with no length yet.
    pub fn new(kind: ProgressKind) -> (r: ProgressState)
        ensures
            r.task() == kind,
            !r.has_length(),
    {
        ProgressState { kind, length_set: false }
    }

    /// Label of the bar before any stage has begun.
    pub fn label(&self) -> (r: &'static str)
        ensures
            r@ == kind_label(self.task()),
    {
        self.kind.prefix()
    }

    /// Takes a byte-count report: the first report with a non-zero total
    /// fixes the bar's length to it; every report moves the bar to `completed`.
    pub fn update(&mut self, completed: u64, total: u64) -> (u: BarUpdate)
        ensures
            u.position == completed,
            u.set_length == (if !old(self).has_length() && total > 0 {
                Some(total)
            } else {
                None::<u64>
            }),
            final(self).has_length() == (old(self).has_length() || total > 0),
            final(self).task() == old(self).task(),
    {
        let set_length = if !self.length_set && total > 0 {
            self.length_set = true;
            Some(total)
        } else {
            None
        };
        BarUpdate { set_length, position: completed }
    }

    /// Takes the `extract` record of an extraction progress message.
    pub fn on_extract(&mut self, info: &ProgressInfoExtract) -> (u: BarUpdate)
        ensures
            u.position == info.completed_bytes,
            u.set_length == (if !old(self).has_length() && info.total_bytes > 0 {
                Some(info.total_bytes)
            } else {
                None::<u64>
            }),
            final(self).has_length() == (old(self).has_length() || info.total_bytes > 0),
            final(self).task() == old(self).task(),
    {
        self.update(info.completed_bytes, info.total_bytes)
    }

    /// Takes the `integrity` record of an integrity-check progress message.
    pub fn on_integrity(&mut self, info: &ProgressInfoIntegrity) -> (u: BarUpdate)
        ensures
            u.position == info.completed_bytes,
            u.set_length == (if !old(self).has_length() && info.total_bytes > 0 {
                Some(info.total_bytes)
            } else {
                None::<u64>
            }),
            final(self).has_length() == (old(self).has_length() || info.total_bytes > 0),
            final(self).task() == old(self).task(),
    {
        self.update(info.completed_bytes, info.total_bytes)
    }

    /// Takes the `write_streams` record of a write progress message.
    pub fn on_write_streams(&mut self, info: &ProgressInfoWriteStreams) -> (u: BarUpdate)
        ensures
            u.position == info.completed_bytes,
            u.set_length == (if !old(self).has_length() && info.total_bytes > 0 {
                Some(info.total_bytes)
            } else {
                None::<u64>
            }),
            final(self).has_length() == (old(self).has_length() || info.total_bytes > 0),
            final(self).task() == old(self).task(),
    {
        self.update(info.completed_bytes, info.total_bytes)
    }

    /// Label of the bar once stage `stage` has begun: `"<task>·<stage>"`.
    pub fn set_stage(&self, stage: &str) -> (r: String)
        ensures
            r@ == kind_label(self.task()) + "·"@ + stage@,
    {
        let mut r = String::from_str(self.kind.prefix());
        r.append("·");
        r.append(stage);
        r
    }

    /// How to leave the bar when the task ends: filled if it succeeded,
    /// abandoned where it stopped otherwise.
    pub fn finish(&self, ok: bool) -> (r: BarEnd)
        ensures
            ok ==> r == BarEnd::Finish,
            !ok ==> r == BarEnd::Abandon,
    {
        if ok {
            BarEnd::Finish
        } else {
            BarEnd::Abandon
        }
    }
}

} // verus!
