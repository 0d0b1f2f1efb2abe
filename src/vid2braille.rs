//! Decisions of the video pipeline: its stages, the verdict over the frame
//! jobs, and the names of the frame files.
use vstd::prelude::*;

use crate::error::CoreError;
use crate::text::push_char;

verus! {

/// Where a video conversion stands. It moves forward one stage at a time,
/// `Idle → Preparing → Extracting → Converting → Encoding → Done`, and can
/// fail from any stage but the last.
#[derive(Debug, Clone, Copy, PartialEq, Eq, Structural)]
pub enum VideoStage {
    Idle,
    /// Looking for the external video tool and opening the working directory.
    Preparing,
    Extracting,
    Converting { frames: usize },
    Encoding,
    Done,
    Failed(CoreError),
}

/// What the frame extractor reports back.
#[derive(Debug, Clone, Copy, PartialEq, Eq, Structural)]
pub struct ExtractionReport {
    pub input_exists: bool,
    pub input_is_file: bool,
    /// The extractor's own working directory could be created.
    pub work_dir_ok: bool,
    /// The decoder ran and exited with success.
    pub decoder_ok: bool,
    /// How many frame images the decoder left, when the directory could be listed.
    pub frames_listed: Option<usize>,
    /// How many of them were read, when every read succeeded.
    pub frames_read: Option<usize>,
}

/// What the outside world reports after doing the last action.
#[derive(Debug, Clone, Copy, PartialEq, Eq, Structural)]
pub enum VideoEvent {
    Start { output_is_dir: bool },
    Prepared { tool_ok: bool, work_dir_ok: bool },
    Extracted(ExtractionReport),
    Converted { all_ok: bool },
    Encoded { ok: bool },
}

/// What to do next.
#[derive(Debug, Clone, Copy, PartialEq, Eq, Structural)]
pub enum VideoAction {
    /// Find the external video tool and open a fresh working directory.
    PrepareTools,
    /// Split the input into frames at 12 frames per second.
    Extract,
    /// Convert each of the frames, one job per frame.
    Convert { frames: usize },
    /// Re-encode the converted frames, in index order, at 12 frames per second.
    Encode,
    Finish,
    Abort(CoreError),
    /// The event does not belong to the current stage: nothing to do.
    Ignore,
}

/// The number of frames an extraction produced, or why it failed. Zero frames
/// is `StreamNotFound`, as is a count of frames read that differs from the
/// count listed.
pub open spec fn extraction_outcome(rep: ExtractionReport) -> Result<usize, CoreError> {
    if !rep.input_exists {
        Err(CoreError::FileNotFound)
    } else if !rep.input_is_file {
        Err(CoreError::NotAFile)
    } else if !rep.work_dir_ok {
        Err(CoreError::FailedToOpenAppPath)
    } else if !rep.decoder_ok {
        Err(CoreError::VideoDecodingError)
    } else {
        match rep.frames_listed {
            None => Err(CoreError::StreamNotFound),
            Some(listed) => match rep.frames_read {
                None => Err(CoreError::StreamError),
                Some(read) => if read != listed || listed == 0 {
                    Err(CoreError::StreamNotFound)
                } else {
                    Ok(listed)
                },
            },
        }
    }
}

pub fn extraction_result(rep: &ExtractionReport) -> (r: Result<usize, CoreError>)
    ensures
        r == extraction_outcome(*rep),
{
    if !rep.input_exists {
        Err(CoreError::FileNotFound)
    } else if !rep.input_is_file {
        Err(CoreError::NotAFile)
    } else if !rep.work_dir_ok {
        Err(CoreError::FailedToOpenAppPath)
    } else if !rep.decoder_ok {
        Err(CoreError::VideoDecodingError)
    } else {
        match rep.frames_listed {
            None => Err(CoreError::StreamNotFound),
            Some(listed) => match rep.frames_read {
                None => Err(CoreError::StreamError),
                Some(read) => if read != listed || listed == 0 {
                    Err(CoreError::StreamNotFound)
                } else {
                    Ok(listed)
                },
            },
        }
    }
}

pub open spec fn fail(e: CoreError) -> (VideoStage, VideoAction) {
    (VideoStage::Failed(e), VideoAction::Abort(e))
}

/// The transition table of a video conversion.
pub open spec fn transition(stage: VideoStage, event: VideoEvent) -> (VideoStage, VideoAction) {
    match (stage, event) {
        (VideoStage::Idle, VideoEvent::Start { output_is_dir }) => if output_is_dir {
            (VideoStage::Preparing, VideoAction::PrepareTools)
        } else {
            fail(CoreError::OutputNotFound)
        },
        (VideoStage::Preparing, VideoEvent::Prepared { tool_ok, work_dir_ok }) => if !tool_ok {
            fail(CoreError::FFmpegAutoDownloadFailed)
        } else if !work_dir_ok {
            fail(CoreError::FailedToOpenAppPath)
        } else {
            (VideoStage::Extracting, VideoAction::Extract)
        },
        (VideoStage::Extracting, VideoEvent::Extracted(rep)) => match extraction_outcome(rep) {
            Ok(frames) => (VideoStage::Converting { frames }, VideoAction::Convert { frames }),
            Err(e) => fail(e),
        },
        (VideoStage::Converting { .. }, VideoEvent::Converted { all_ok }) => if all_ok {
            (VideoStage::Encoding, VideoAction::Encode)
        } else {
            fail(CoreError::FailedToConvert)
        },
        (VideoStage::Encoding, VideoEvent::Encoded { ok }) => if ok {
            (VideoStage::Done, VideoAction::Finish)
        } else {
            fail(CoreError::VideoEncodingError)
        },
        _ => (stage, VideoAction::Ignore),
    }
}

/// The next stage and action of a video conversion (see [`transition`]).
pub fn next_step(stage: VideoStage, event: VideoEvent) -> (r: (VideoStage, VideoAction))
    ensures
        r == transition(stage, event),
{
    match (stage, event) {
        (VideoStage::Idle, VideoEvent::Start { output_is_dir }) => if output_is_dir {
            (VideoStage::Preparing, VideoAction::PrepareTools)
        } else {
            (VideoStage::Failed(CoreError::OutputNotFound), VideoAction::Abort(CoreError::OutputNotFound))
        },
        (VideoStage::Preparing, VideoEvent::Prepared { tool_ok, work_dir_ok }) => if !tool_ok {
            (
                VideoStage::Failed(CoreError::FFmpegAutoDownloadFailed),
                VideoAction::Abort(CoreError::FFmpegAutoDownloadFailed),
            )
        } else if !work_dir_ok {
            (
                VideoStage::Failed(CoreError::FailedToOpenAppPath),
                VideoAction::Abort(CoreError::FailedToOpenAppPath),
            )
        } else {
            (VideoStage::Extracting, VideoAction::Extract)
        },
        (VideoStage::Extracting, VideoEvent::Extracted(rep)) => match extraction_result(&rep) {
            Ok(frames) => (VideoStage::Converting { frames }, VideoAction::Convert { frames }),
            Err(e) => (VideoStage::Failed(e), VideoAction::Abort(e)),
        },
        (VideoStage::Converting { .. }, VideoEvent::Converted { all_ok }) => if all_ok {
            (VideoStage::Encoding, VideoAction::Encode)
        } else {
            (VideoStage::Failed(CoreError::FailedToConvert), VideoAction::Abort(CoreError::FailedToConvert))
        },
        (VideoStage::Encoding, VideoEvent::Encoded { ok }) => if ok {
            (VideoStage::Done, VideoAction::Finish)
        } else {
            (
                VideoStage::Failed(CoreError::VideoEncodingError),
                VideoAction::Abort(CoreError::VideoEncodingError),
            )
        },
        _ => (stage, VideoAction::Ignore),
    }
}

impl VideoAction {
    /// The progress milestone that starting this action reports: a label and
    /// a percentage.
    pub fn progress(&self) -> (r: Option<(&'static str, u8)>)
        ensures
            *self == VideoAction::PrepareTools ==> r == Some(("Looking for FFmpeg", 0u8)),
            *self == VideoAction::Extract ==> r == Some(("Decoding video...", 25u8)),
            *self matches VideoAction::Convert { .. } ==> r == Some(
                ("converting frames...", 50u8),
            ),
            *self == VideoAction::Encode ==> r == Some(
                ("frames converted, encoding to video", 75u8),
            ),
            *self == VideoAction::Finish ==> r == Some(("Video encoded", 100u8)),
            *self matches VideoAction::Abort(_) ==> r is None,
            *self == VideoAction::Ignore ==> r is None,
    {
        match self {
            VideoAction::PrepareTools => Some(("Looking for FFmpeg", 0)),
            VideoAction::Extract => Some(("Decoding video...", 25)),
            VideoAction::Convert { .. } => Some(("converting frames...", 50)),
            VideoAction::Encode => Some(("frames converted, encoding to video", 75)),
            VideoAction::Finish => Some(("Video encoded", 100)),
            VideoAction::Abort(_) => None,
            VideoAction::Ignore => None,
        }
    }
}

/// Where one frame's conversion job stands.
#[derive(Debug, Clone, Copy, PartialEq, Eq, Structural)]
pub enum JobStatus {
    Pending,
    Succeeded,
    Failed,
}

pub open spec fn status_of(ok: bool) -> JobStatus {
    if ok {
        JobStatus::Succeeded
    } else {
        JobStatus::Failed
    }
}

/// The results of the conversion jobs of a video, kept by frame index, so
/// that the order in which jobs finish does not matter.
pub struct JobBoard {
    pub status: Vec<JobStatus>,
}

/// The board after the jobs listed in `order` reported, in that order, job
/// `i` reporting `ok[i]`.
pub open spec fn record_all(board: Seq<JobStatus>, order: Seq<nat>, ok: Seq<bool>) -> Seq<
    JobStatus,
>
    decreases order.len(),
{
    if order.len() == 0 {
        board
    } else {
        let i = order.last();
        record_all(board, order.drop_last(), ok).update(i as int, status_of(ok[i as int]))
    }
}

/// `order` names each of the frame indices `0..n` exactly once.
pub open spec fn is_completion_order(order: Seq<nat>, n: nat) -> bool {
    &&& order.len() == n
    &&& order.no_duplicates()
    &&& forall|k: int| 0 <= k < order.len() ==> #[trigger] order[k] < n
    &&& forall|i: nat| i < n ==> #[trigger] order.contains(i)
}

proof fn lemma_record_prefix(n: nat, order: Seq<nat>, ok: Seq<bool>, k: int)
    requires
        is_completion_order(order, n),
        ok.len() == n,
        0 <= k <= n,
    ensures
        record_all(Seq::new(n, |i: int| JobStatus::Pending), order.subrange(0, k), ok) == Seq::new(
            n,
            |i: int|
                if order.subrange(0, k).contains(i as nat) {
                    status_of(ok[i])
                } else {
                    JobStatus::Pending
                },
        ),
    decreases k,
{
    let pending = Seq::new(n, |i: int| JobStatus::Pending);
    let prefix = order.subrange(0, k);
    if k == 0 {
        assert(record_all(pending, prefix, ok) =~= Seq::new(
            n,
            |i: int|
                if prefix.contains(i as nat) {
                    status_of(ok[i])
                } else {
                    JobStatus::Pending
                },
        ));
    } else {
        let shorter = order.subrange(0, k - 1);
        assert(prefix.drop_last() =~= shorter);
        lemma_record_prefix(n, order, ok, k - 1);
        let last = order[k - 1];
        assert(prefix.last() == last);
        assert forall|i: nat| #[trigger] prefix.contains(i) <==> (shorter.contains(i) || i == last) by {
            if prefix.contains(i) {
                let j = choose|j: int| 0 <= j < prefix.len() && prefix[j] == i;
                if j < k - 1 {
                    assert(shorter[j] == i);
                }
            }
            if shorter.contains(i) {
                let j = choose|j: int| 0 <= j < shorter.len() && shorter[j] == i;
                assert(prefix[j] == i);
            }
            if i == last {
                assert(prefix[k - 1] == i);
            }
        }
        assert(record_all(pending, prefix, ok) =~= Seq::new(
            n,
            |i: int|
                if prefix.contains(i as nat) {
                    status_of(ok[i])
                } else {
                    JobStatus::Pending
                },
        ));
    }
}

/// The frame pipeline's results do not depend on scheduling: whatever order
/// the `n` jobs finish in, once each has reported, the board holds job `i`'s
/// own result at index `i`, for every `i` in `0..n` and nothing else.
pub proof fn lemma_completion_order_irrelevant(n: nat, order: Seq<nat>, ok: Seq<bool>)
    requires
        is_completion_order(order, n),
        ok.len() == n,
    ensures
        record_all(Seq::new(n, |i: int| JobStatus::Pending), order, ok) == Seq::new(
            n,
            |i: int| status_of(ok[i]),
        ),
{
    lemma_record_prefix(n, order, ok, n as int);
    assert(order.subrange(0, n as int) =~= order);
    assert(record_all(Seq::new(n, |i: int| JobStatus::Pending), order, ok) =~= Seq::new(
        n,
        |i: int| status_of(ok[i]),
    ));
}

/// The board's verdict once every job reported: `Ok` when all succeeded,
/// `FailedToConvert` when any failed; `None` while some job is pending.
pub open spec fn board_outcome(board: Seq<JobStatus>) -> Option<Result<(), CoreError>> {
    if exists|i: int| 0 <= i < board.len() && board[i] == JobStatus::Pending {
        None
    } else if exists|i: int| 0 <= i < board.len() && board[i] == JobStatus::Failed {
        Some(Err(CoreError::FailedToConvert))
    } else {
        Some(Ok(()))
    }
}

impl JobBoard {
    /// A board for `frames` jobs, all pending.
    pub fn new(frames: usize) -> (b: JobBoard)
        ensures
            b.status@ == Seq::new(frames as nat, |i: int| JobStatus::Pending),
    {
        let mut status: Vec<JobStatus> = Vec::new();
        let mut i: usize = 0;
        while i < frames
            invariant
                i <= frames,
                status@ == Seq::new(i as nat, |k: int| JobStatus::Pending),
            decreases frames - i,
        {
            status.push(JobStatus::Pending);
            i = i + 1;
            assert(status@ =~= Seq::new(i as nat, |k: int| JobStatus::Pending));
        }
        JobBoard { status }
    }

    /// Job `index` reported `ok`.
    pub fn record(&mut self, index: usize, ok: bool)
        requires
            index < old(self).status@.len(),
        ensures
            final(self).status@ == old(self).status@.update(index as int, status_of(ok)),
    {
        let s = if ok {
            JobStatus::Succeeded
        } else {
            JobStatus::Failed
        };
        self.status.set(index, s);
    }

    /// The verdict over all jobs (see [`board_outcome`]).
    pub fn outcome(&self) -> (r: Option<Result<(), CoreError>>)
        ensures
            r == board_outcome(self.status@),
    {
        let mut failed = false;
        let mut i: usize = 0;
        while i < self.status.len()
            invariant
                i <= self.status@.len(),
                forall|k: int| 0 <= k < i ==> self.status@[k] != JobStatus::Pending,
                failed <==> exists|k: int| 0 <= k < i && self.status@[k] == JobStatus::Failed,
            decreases self.status@.len() - i,
        {
            match self.status[i] {
                JobStatus::Pending => return None,
                JobStatus::Failed => failed = true,
                JobStatus::Succeeded => {},
            }
            i = i + 1;
        }
        if failed {
            Some(Err(CoreError::FailedToConvert))
        } else {
            Some(Ok(()))
        }
    }
}

pub open spec fn digit_char(d: nat) -> char {
    if d == 0 {
        '0'
    } else if d == 1 {
        '1'
    } else if d == 2 {
        '2'
    } else if d == 3 {
        '3'
    } else if d == 4 {
        '4'
    } else if d == 5 {
        '5'
    } else if d == 6 {
        '6'
    } else if d == 7 {
        '7'
    } else if d == 8 {
        '8'
    } else {
        '9'
    }
}

/// The decimal digits of `n`, without leading zeros.
pub open spec fn decimal(n: nat) -> Seq<char>
    decreases n,
{
    if n < 10 {
        seq![digit_char(n)]
    } else {
        decimal(n / 10).push(digit_char(n % 10))
    }
}

/// The name of the file that frame `index` is written to: its index in
/// decimal, then `.png`.
pub open spec fn frame_name(index: nat) -> Seq<char> {
    decimal(index) + seq!['.', 'p', 'n', 'g']
}

fn digit(d: usize) -> (c: char)
    requires
        d < 10,
    ensures
        c == digit_char(d as nat),
{
    match d {
        0 => '0',
        1 => '1',
        2 => '2',
        3 => '3',
        4 => '4',
        5 => '5',
        6 => '6',
        7 => '7',
        8 => '8',
        _ => '9',
    }
}

fn push_decimal(s: &mut String, n: usize)
    ensures
        final(s)@ == old(s)@ + decimal(n as nat),
    decreases n,
{
    if n >= 10 {
        push_decimal(s, n / 10);
    }
    push_char(s, digit(n % 10));
    proof {
        if n < 10 {
            assert(old(s)@ + decimal(n as nat) =~= old(s)@.push(digit_char(n as nat)));
        } else {
            assert(old(s)@ + decimal(n as nat) =~= (old(s)@ + decimal((n / 10) as nat)).push(
                digit_char((n % 10) as nat),
            ));
        }
    }
}

/// The name of the file that the converted frame `index` is written to.
pub fn frame_file_name(index: usize) -> (r: String)
    ensures
        r@ == frame_name(index as nat),
{
    let mut name = String::new();
    push_decimal(&mut name, index);
    push_char(&mut name, '.');
    push_char(&mut name, 'p');
    push_char(&mut name, 'n');
    push_char(&mut name, 'g');
    proof {
        assert(name@ =~= frame_name(index as nat));
    }
    name
}

proof fn lemma_digit_char_injective(a: nat, b: nat)
    requires
        a < 10,
        b < 10,
        digit_char(a) == digit_char(b),
    ensures
        a == b,
{
}

proof fn lemma_decimal_injective(a: nat, b: nat)
    requires
        decimal(a) == decimal(b),
    ensures
        a == b,
    decreases a,
{
    if a < 10 && b < 10 {
        assert(decimal(a) == seq![digit_char(a)]);
        assert(decimal(b) == seq![digit_char(b)]);
        assert(seq![digit_char(a)][0] == digit_char(a));
        assert(seq![digit_char(b)][0] == digit_char(b));
        assert(decimal(a)[0] == decimal(b)[0]);
        lemma_digit_char_injective(a, b);
    } else if a >= 10 && b >= 10 {
        assert(decimal(a).last() == digit_char(a % 10));
        assert(decimal(b).last() == digit_char(b % 10));
        lemma_digit_char_injective(a % 10, b % 10);
        assert(decimal(a / 10) =~= decimal(a).drop_last());
        assert(decimal(b / 10) =~= decimal(b).drop_last());
        lemma_decimal_injective((a / 10) as nat, (b / 10) as nat);
    } else if a < 10 {
        lemma_decimal_nonempty((b / 10) as nat);
        assert(decimal(a).len() == 1);
        assert(decimal(b).len() == decimal((b / 10) as nat).len() + 1);
    } else {
        lemma_decimal_nonempty((a / 10) as nat);
        assert(decimal(b).len() == 1);
        assert(decimal(a).len() == decimal((a / 10) as nat).len() + 1);
    }
}

proof fn lemma_decimal_nonempty(n: nat)
    ensures
        decimal(n).len() >= 1,
    decreases n,
{
    if n >= 10 {
        lemma_decimal_nonempty((n / 10) as nat);
    }
}

/// Distinct frames are written to distinct files, so the jobs of a video
/// never write over each other's output.
pub proof fn lemma_frame_names_distinct(a: nat, b: nat)
    requires
        a != b,
    ensures
        frame_name(a) != frame_name(b),
{
    if frame_name(a) == frame_name(b) {
        lemma_decimal_nonempty(a);
        lemma_decimal_nonempty(b);
        let na = decimal(a).len();
        let nb = decimal(b).len();
        assert(frame_name(a).len() == na + 4);
        assert(decimal(a) =~= frame_name(a).subrange(0, na as int));
        assert(decimal(b) =~= frame_name(b).subrange(0, nb as int));
        lemma_decimal_injective(a, b);
    }
}

} // verus!
