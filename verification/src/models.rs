//! Where downloaded whisper.cpp model files live, and the arithmetic of a
//! resumable download: a model streams into `<filename>.part` and is renamed
//! when complete, and an interrupted download resumes with an HTTP `Range`
//! request from the bytes already on disk.

use vstd::prelude::*;
use crate::error::CoreError;
use crate::paths::{join_path, join_spec};
use crate::text::{concat, decimal, u64_to_decimal};

verus! {

/// Which whisper.cpp model variant to use.
#[derive(Debug, Clone, Copy, PartialEq, Eq, Structural)]
pub enum WhisperModel {
    TinyEn,
    BaseEn,
}

pub open spec fn model_filename(m: WhisperModel) -> Seq<char> {
    match m {
        WhisperModel::TinyEn => "ggml-tiny.en.bin"@,
        WhisperModel::BaseEn => "ggml-base.en.bin"@,
    }
}

pub open spec fn model_url(m: WhisperModel) -> Seq<char> {
    match m {
        WhisperModel::TinyEn =>
            "https://huggingface.co/ggerganov/whisper.cpp/resolve/main/ggml-tiny.en.bin"@,
        WhisperModel::BaseEn =>
            "https://huggingface.co/ggerganov/whisper.cpp/resolve/main/ggml-base.en.bin"@,
    }
}

impl WhisperModel {
    /// File name on disk; the release's own name, so the URL and the file
    /// share a basename.
    pub fn filename(self) -> (s: &'static str)
        ensures
            s@ == model_filename(self),
    {
        match self {
            WhisperModel::TinyEn => "ggml-tiny.en.bin",
            WhisperModel::BaseEn => "ggml-base.en.bin",
        }
    }

    /// Where the file is fetched from.
    pub fn download_url(self) -> (s: &'static str)
        ensures
            s@ == model_url(self),
    {
        match self {
            WhisperModel::TinyEn => {
                "https://huggingface.co/ggerganov/whisper.cpp/resolve/main/ggml-tiny.en.bin"
            },
            WhisperModel::BaseEn => {
                "https://huggingface.co/ggerganov/whisper.cpp/resolve/main/ggml-base.en.bin"
            },
        }
    }
}

/// The directory downloaded models are kept in.
pub struct ModelStore {
    dir: String,
}

impl ModelStore {
    pub closed spec fn dir_spec(&self) -> Seq<char> {
        self.dir@
    }

    pub fn new(dir: String) -> (s: ModelStore)
        ensures
            s.dir_spec() == dir@,
    {
        ModelStore { dir }
    }

    /// Where an installed copy of `model` lives.
    pub fn path_for(&self, model: WhisperModel) -> (p: String)
        ensures
            p@ == join_spec(self.dir_spec(), model_filename(model)),
    {
        join_path(self.dir.as_str(), model.filename())
    }

    /// The `.part` file a download of `model` streams into.
    pub fn part_path_for(&self, model: WhisperModel) -> (p: String)
        ensures
            p@ == join_spec(self.dir_spec(), model_filename(model) + ".part"@),
    {
        let name = concat(model.filename(), ".part");
        join_path(self.dir.as_str(), name.as_str())
    }
}

/// The `Range` header value that resumes a download after `already_have`
/// bytes: `bytes=<n>-`.
pub fn range_header_value(already_have: u64) -> (s: String)
    ensures
        s@ == "bytes="@ + decimal(already_have as nat) + "-"@,
{
    let a = concat("bytes=", u64_to_decimal(already_have).as_str());
    concat(a.as_str(), "-")
}

/// The size of the whole file, from the length the server reports for the
/// remainder and the bytes already on disk.
pub fn resumed_total(remaining: Option<u64>, already_have: u64) -> (r: Option<u64>)
    requires
        remaining matches Some(n) ==> n + already_have <= u64::MAX,
    ensures
        r == match remaining {
            Some(n) => Some((n + already_have) as u64),
            None => None::<u64>,
        },
{
    match remaining {
        Some(n) => Some(n + already_have),
        None => None,
    }
}

/// A finished download stream is accepted unless the server sent nothing
/// and nothing was on disk before: that almost certainly means a wrong URL
/// or an empty response.
pub fn check_download_outcome(already_have: u64, received_this_run: u64) -> (r: Result<
    (),
    CoreError,
>)
    ensures
        already_have == 0 && received_this_run == 0 ==> (r matches Err(CoreError::Transcriber(m))
            && m@ == "model download produced zero bytes"@),
        !(already_have == 0 && received_this_run == 0) ==> r is Ok,
{
    if already_have == 0 && received_this_run == 0 {
        return Err(CoreError::Transcriber("model download produced zero bytes".to_owned()));
    }
    Ok(())
}

} // verus!
