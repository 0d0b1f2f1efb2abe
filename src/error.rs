//! The error kinds of the conversion engine.
use vstd::prelude::*;

verus! {

/// Every failure that the conversion engine and the frame pipeline report.
#[derive(Debug, Clone, Copy, PartialEq, Eq, Structural)]
pub enum CoreError {
    FileNotFound,
    NotAFile,
    WrongExtension,
    StreamError,
    StreamNotFound,
    FailedToConvert,
    FrameDecodeError,
    FailedToConvertToBraille,
    FailedToConvertToImage,
    DitheringFailed,
    FailedToOpenAppPath,
    FailedToSave,
    FFmpegAutoDownloadFailed,
    OutputNotFound,
    VideoEncodingError,
    VideoDecodingError,
}

} // verus!
