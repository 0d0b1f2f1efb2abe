use vidascii::console::{check_io, IoIssue, Level, PathState};
use vidascii::session::{new_work_dir_path, work_dir_path};
use vidascii::vid2braille::{
    extraction_result, frame_file_name, next_step, ExtractionReport, JobBoard, JobStatus,
    VideoAction, VideoEvent, VideoStage,
};
use vidascii::CoreError;

fn report(frames: usize) -> ExtractionReport {
    ExtractionReport {
        input_exists: true,
        input_is_file: true,
        work_dir_ok: true,
        decoder_ok: true,
        frames_listed: Some(frames),
        frames_read: Some(frames),
    }
}

#[test]
fn video_pipeline_runs_through_its_stages() {
    let (s, a) = next_step(VideoStage::Idle, VideoEvent::Start { output_is_dir: true });
    assert_eq!((s, a), (VideoStage::Preparing, VideoAction::PrepareTools));
    assert_eq!(a.progress(), Some(("Looking for FFmpeg", 0)));
    let (s, a) = next_step(s, VideoEvent::Prepared { tool_ok: true, work_dir_ok: true });
    assert_eq!((s, a), (VideoStage::Extracting, VideoAction::Extract));
    assert_eq!(a.progress(), Some(("Decoding video...", 25)));
    let (s, a) = next_step(s, VideoEvent::Extracted(report(3)));
    assert_eq!((s, a), (VideoStage::Converting { frames: 3 }, VideoAction::Convert { frames: 3 }));
    assert_eq!(a.progress(), Some(("converting frames...", 50)));
    let (s, a) = next_step(s, VideoEvent::Converted { all_ok: true });
    assert_eq!((s, a), (VideoStage::Encoding, VideoAction::Encode));
    assert_eq!(a.progress(), Some(("frames converted, encoding to video", 75)));
    let (s, a) = next_step(s, VideoEvent::Encoded { ok: true });
    assert_eq!((s, a), (VideoStage::Done, VideoAction::Finish));
    assert_eq!(a.progress(), Some(("Video encoded", 100)));
}

#[test]
fn video_pipeline_failures() {
    let fail = |e| (VideoStage::Failed(e), VideoAction::Abort(e));
    assert_eq!(next_step(VideoStage::Idle, VideoEvent::Start { output_is_dir: false }), fail(CoreError::OutputNotFound));
    assert_eq!(
        next_step(VideoStage::Preparing, VideoEvent::Prepared { tool_ok: false, work_dir_ok: true }),
        fail(CoreError::FFmpegAutoDownloadFailed)
    );
    assert_eq!(
        next_step(VideoStage::Preparing, VideoEvent::Prepared { tool_ok: true, work_dir_ok: false }),
        fail(CoreError::FailedToOpenAppPath)
    );
    assert_eq!(next_step(VideoStage::Extracting, VideoEvent::Extracted(report(0))), fail(CoreError::StreamNotFound));
    assert_eq!(
        next_step(VideoStage::Converting { frames: 2 }, VideoEvent::Converted { all_ok: false }),
        fail(CoreError::FailedToConvert)
    );
    assert_eq!(next_step(VideoStage::Encoding, VideoEvent::Encoded { ok: false }), fail(CoreError::VideoEncodingError));
    assert_eq!(fail(CoreError::StreamError).1.progress(), None);
}

#[test]
fn out_of_place_events_are_ignored() {
    assert_eq!(
        next_step(VideoStage::Idle, VideoEvent::Encoded { ok: true }),
        (VideoStage::Idle, VideoAction::Ignore)
    );
    let done = VideoStage::Done;
    assert_eq!(next_step(done, VideoEvent::Start { output_is_dir: true }), (done, VideoAction::Ignore));
}

#[test]
fn extraction_errors() {
    assert_eq!(extraction_result(&report(5)), Ok(5));
    assert_eq!(extraction_result(&ExtractionReport { input_exists: false, ..report(5) }), Err(CoreError::FileNotFound));
    assert_eq!(extraction_result(&ExtractionReport { input_is_file: false, ..report(5) }), Err(CoreError::NotAFile));
    assert_eq!(extraction_result(&ExtractionReport { work_dir_ok: false, ..report(5) }), Err(CoreError::FailedToOpenAppPath));
    assert_eq!(extraction_result(&ExtractionReport { decoder_ok: false, ..report(5) }), Err(CoreError::VideoDecodingError));
    assert_eq!(extraction_result(&ExtractionReport { frames_listed: None, ..report(5) }), Err(CoreError::StreamNotFound));
    assert_eq!(extraction_result(&ExtractionReport { frames_read: None, ..report(5) }), Err(CoreError::StreamError));
    assert_eq!(extraction_result(&ExtractionReport { frames_read: Some(4), ..report(5) }), Err(CoreError::StreamNotFound));
    assert_eq!(extraction_result(&report(0)), Err(CoreError::StreamNotFound));
}

#[test]
fn job_board_ignores_completion_order() {
    let results = [true, false, true, true];
    let mut forward = JobBoard::new(4);
    let mut backward = JobBoard::new(4);
    assert_eq!(forward.outcome(), None);
    for i in 0..4 {
        forward.record(i, results[i]);
        backward.record(3 - i, results[3 - i]);
    }
    assert_eq!(forward.status, backward.status);
    assert_eq!(forward.status[1], JobStatus::Failed);
    assert_eq!(forward.outcome(), Some(Err(CoreError::FailedToConvert)));
    let mut all_ok = JobBoard::new(3);
    for i in [2, 0, 1] {
        all_ok.record(i, true);
    }
    assert_eq!(all_ok.outcome(), Some(Ok(())));
    assert_eq!(JobBoard::new(0).outcome(), Some(Ok(())));
}

#[test]
fn frame_files_are_named_by_index() {
    assert_eq!(frame_file_name(0), "0.png");
    assert_eq!(frame_file_name(7), "7.png");
    assert_eq!(frame_file_name(12), "12.png");
    assert_eq!(frame_file_name(1030), "1030.png");
    let names: std::collections::HashSet<String> = (0..500).map(frame_file_name).collect();
    assert_eq!(names.len(), 500);
}

#[test]
fn io_check_lists_every_problem() {
    let file = PathState { exists: true, is_file: true, is_dir: false };
    let dir = PathState { exists: true, is_file: false, is_dir: true };
    let missing = PathState { exists: false, is_file: false, is_dir: false };
    assert_eq!(check_io(file, dir), Ok(()));
    assert_eq!(
        check_io(missing, missing),
        Err(vec![IoIssue::InputMissing, IoIssue::OutputMissing, IoIssue::InputNotFile, IoIssue::OutputNotDir])
    );
    assert_eq!(check_io(dir, file), Err(vec![IoIssue::InputNotFile, IoIssue::OutputNotDir]));
}

#[test]
fn level_labels() {
    assert_eq!(Level::Info.label(), "INFO");
    assert_eq!(Level::Success.label(), "SUCCESS");
    assert_eq!(Level::Warn.label(), "WARN");
    assert_eq!(Level::Error.label(), "ERROR");
}

#[test]
fn session_directory_paths() {
    assert_eq!(work_dir_path("/tmp", "abc"), "/tmp/vidascii_tmp/abc");
    assert_eq!(work_dir_path("/tmp//", "abc"), "/tmp/vidascii_tmp/abc");
    assert_eq!(work_dir_path("", "x"), "/vidascii_tmp/x");
    let first = new_work_dir_path("/var/tmp/");
    let second = new_work_dir_path("/var/tmp/");
    assert!(first.starts_with("/var/tmp/vidascii_tmp/"));
    let id = &first["/var/tmp/vidascii_tmp/".len()..];
    assert_eq!(id.len(), 36);
    assert!(id.chars().all(|c| c.is_ascii_digit() || ('a'..='f').contains(&c) || c == '-'));
    assert_ne!(first, second);
}
