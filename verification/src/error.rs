//! The error that every rule of a project reports, and its mathematical view.

use crate::text::text_concat;
use vstd::prelude::*;

verus! {

pub type VideoResult<T> = Result<T, VideoError>;

/// Why a document or a request is refused.
#[derive(Clone, Copy, Debug, PartialEq, Eq, Structural)]
pub enum VideoErrorCode {
    UnsupportedSchema,
    InvalidIdentifier,
    InvalidTimestamp,
    InvalidFrameRate,
    InvalidAsset,
    MissingRightsConfirmation,
    InvalidRightsConfirmation,
    InvalidTranscript,
    InvalidCandidate,
    InvalidScene,
    InvalidTrack,
    InvalidGap,
    InvalidCaption,
    InvalidLayout,
    InvalidAudioMix,
    InvalidNarration,
    InvalidArtifact,
    InvalidRevision,
    DuplicateId,
    MissingReference,
    TimelineOverlap,
    TimelineGap,
    DurationMismatch,
    ArithmeticOverflow,
    InvalidCacheInput,
    InvalidResourceRequest,
    ResourceUnavailable,
    JobAlreadyActive,
    InvalidCast,
    InvalidDialogue,
    UnknownSpeaker,
    InvalidLexicon,
    InvalidPerformance,
    InvalidCue,
    CueFitFailed,
    InvalidSoundPlacement,
    DraftNotPromoted,
    InvalidShowFormat,
}

impl VideoErrorCode {
    /// The stable text of each code.
    pub open spec fn text(self) -> Seq<char> {
        match self {
            VideoErrorCode::UnsupportedSchema => "video.unsupported_schema"@,
            VideoErrorCode::InvalidIdentifier => "video.invalid_identifier"@,
            VideoErrorCode::InvalidTimestamp => "video.invalid_timestamp"@,
            VideoErrorCode::InvalidFrameRate => "video.invalid_frame_rate"@,
            VideoErrorCode::InvalidAsset => "video.invalid_asset"@,
            VideoErrorCode::MissingRightsConfirmation => "video.missing_rights_confirmation"@,
            VideoErrorCode::InvalidRightsConfirmation => "video.invalid_rights_confirmation"@,
            VideoErrorCode::InvalidTranscript => "video.invalid_transcript"@,
            VideoErrorCode::InvalidCandidate => "video.invalid_candidate"@,
            VideoErrorCode::InvalidScene => "video.invalid_scene"@,
            VideoErrorCode::InvalidTrack => "video.invalid_track"@,
            VideoErrorCode::InvalidGap => "video.invalid_gap"@,
            VideoErrorCode::InvalidCaption => "video.invalid_caption"@,
            VideoErrorCode::InvalidLayout => "video.invalid_layout"@,
            VideoErrorCode::InvalidAudioMix => "video.invalid_audio_mix"@,
            VideoErrorCode::InvalidNarration => "video.invalid_narration"@,
            VideoErrorCode::InvalidArtifact => "video.invalid_artifact"@,
            VideoErrorCode::InvalidRevision => "video.invalid_revision"@,
            VideoErrorCode::DuplicateId => "video.duplicate_id"@,
            VideoErrorCode::MissingReference => "video.missing_reference"@,
            VideoErrorCode::TimelineOverlap => "video.timeline_overlap"@,
            VideoErrorCode::TimelineGap => "video.timeline_gap"@,
            VideoErrorCode::DurationMismatch => "video.duration_mismatch"@,
            VideoErrorCode::ArithmeticOverflow => "video.arithmetic_overflow"@,
            VideoErrorCode::InvalidCacheInput => "video.invalid_cache_input"@,
            VideoErrorCode::InvalidResourceRequest => "video.invalid_resource_request"@,
            VideoErrorCode::ResourceUnavailable => "video.resource_unavailable"@,
            VideoErrorCode::JobAlreadyActive => "video.job_already_active"@,
            VideoErrorCode::InvalidCast => "video.invalid_cast"@,
            VideoErrorCode::InvalidDialogue => "video.invalid_dialogue"@,
            VideoErrorCode::UnknownSpeaker => "video.unknown_speaker"@,
            VideoErrorCode::InvalidLexicon => "video.invalid_lexicon"@,
            VideoErrorCode::InvalidPerformance => "video.invalid_performance"@,
            VideoErrorCode::InvalidCue => "video.invalid_cue"@,
            VideoErrorCode::CueFitFailed => "video.cue_fit_failed"@,
            VideoErrorCode::InvalidSoundPlacement => "video.invalid_sound_placement"@,
            VideoErrorCode::DraftNotPromoted => "video.draft_not_promoted"@,
            VideoErrorCode::InvalidShowFormat => "video.invalid_show_format"@,
        }
    }

    pub fn as_str(self) -> (text: &'static str)
        ensures
            text@ == self.text(),
    {
        match self {
            VideoErrorCode::UnsupportedSchema => "video.unsupported_schema",
            VideoErrorCode::InvalidIdentifier => "video.invalid_identifier",
            VideoErrorCode::InvalidTimestamp => "video.invalid_timestamp",
            VideoErrorCode::InvalidFrameRate => "video.invalid_frame_rate",
            VideoErrorCode::InvalidAsset => "video.invalid_asset",
            VideoErrorCode::MissingRightsConfirmation => "video.missing_rights_confirmation",
            VideoErrorCode::InvalidRightsConfirmation => "video.invalid_rights_confirmation",
            VideoErrorCode::InvalidTranscript => "video.invalid_transcript",
            VideoErrorCode::InvalidCandidate => "video.invalid_candidate",
            VideoErrorCode::InvalidScene => "video.invalid_scene",
            VideoErrorCode::InvalidTrack => "video.invalid_track",
            VideoErrorCode::InvalidGap => "video.invalid_gap",
            VideoErrorCode::InvalidCaption => "video.invalid_caption",
            VideoErrorCode::InvalidLayout => "video.invalid_layout",
            VideoErrorCode::InvalidAudioMix => "video.invalid_audio_mix",
            VideoErrorCode::InvalidNarration => "video.invalid_narration",
            VideoErrorCode::InvalidArtifact => "video.invalid_artifact",
            VideoErrorCode::InvalidRevision => "video.invalid_revision",
            VideoErrorCode::DuplicateId => "video.duplicate_id",
            VideoErrorCode::MissingReference => "video.missing_reference",
            VideoErrorCode::TimelineOverlap => "video.timeline_overlap",
            VideoErrorCode::TimelineGap => "video.timeline_gap",
            VideoErrorCode::DurationMismatch => "video.duration_mismatch",
            VideoErrorCode::ArithmeticOverflow => "video.arithmetic_overflow",
            VideoErrorCode::InvalidCacheInput => "video.invalid_cache_input",
            VideoErrorCode::InvalidResourceRequest => "video.invalid_resource_request",
            VideoErrorCode::ResourceUnavailable => "video.resource_unavailable",
            VideoErrorCode::JobAlreadyActive => "video.job_already_active",
            VideoErrorCode::InvalidCast => "video.invalid_cast",
            VideoErrorCode::InvalidDialogue => "video.invalid_dialogue",
            VideoErrorCode::UnknownSpeaker => "video.unknown_speaker",
            VideoErrorCode::InvalidLexicon => "video.invalid_lexicon",
            VideoErrorCode::InvalidPerformance => "video.invalid_performance",
            VideoErrorCode::InvalidCue => "video.invalid_cue",
            VideoErrorCode::CueFitFailed => "video.cue_fit_failed",
            VideoErrorCode::InvalidSoundPlacement => "video.invalid_sound_placement",
            VideoErrorCode::DraftNotPromoted => "video.draft_not_promoted",
            VideoErrorCode::InvalidShowFormat => "video.invalid_show_format",
        }
    }
}

/// One refusal: a stable code, a message for a reader, and the field it is about.
#[derive(Clone, Debug, PartialEq, Eq)]
pub struct VideoError {
    pub code: VideoErrorCode,
    pub message: String,
    pub field: Option<String>,
    pub retryable: bool,
    /// JSON text with further evidence.
    pub details: Option<String>,
}

/// What a [`VideoError`] holds, as mathematical values.
pub struct Fault {
    pub code: VideoErrorCode,
    pub message: Seq<char>,
    pub field: Option<Seq<char>>,
    pub retryable: bool,
    pub details: Option<Seq<char>>,
}

impl DeepView for VideoError {
    type V = Fault;

    open spec fn deep_view(&self) -> Fault {
        Fault {
            code: self.code,
            message: self.message@,
            field: self.field.deep_view(),
            retryable: self.retryable,
            details: self.details.deep_view(),
        }
    }
}

/// A final refusal that names no field.
pub open spec fn fault(code: VideoErrorCode, message: Seq<char>) -> Fault {
    Fault { code, message, field: None, retryable: false, details: None }
}

/// A final refusal of the given field.
pub open spec fn fault_at(code: VideoErrorCode, message: Seq<char>, field: Seq<char>) -> Fault {
    Fault { code, message, field: Some(field), retryable: false, details: None }
}

/// What a result refuses, if it refuses.
pub open spec fn refusal<T>(result: VideoResult<T>) -> Option<Fault> {
    match result {
        Ok(_) => None,
        Err(error) => Some(error.deep_view()),
    }
}

/// What a result holds, as mathematical values.
pub open spec fn outcome<T: DeepView>(result: VideoResult<T>) -> Result<T::V, Fault> {
    match result {
        Ok(value) => Ok(value.deep_view()),
        Err(error) => Err(error.deep_view()),
    }
}

/// The first of two refusals: the second rule is asked only where the first is met.
pub open spec fn or_else(first: Option<Fault>, second: Option<Fault>) -> Option<Fault> {
    if first is Some {
        first
    } else {
        second
    }
}

/// A rule as a refusal: none where the condition holds.
pub open spec fn unless(met: bool, otherwise: Fault) -> Option<Fault> {
    if met {
        None
    } else {
        Some(otherwise)
    }
}

impl VideoError {
    pub fn new(code: VideoErrorCode, message: &str) -> (error: Self)
        ensures
            error.deep_view() == fault(code, message@),
    {
        VideoError { code, message: message.to_owned(), field: None, retryable: false, details: None }
    }

    pub fn at(self, field: &str) -> (error: Self)
        ensures
            error.deep_view() == (Fault { field: Some(field@), ..self.deep_view() }),
    {
        VideoError { field: Some(field.to_owned()), ..self }
    }

    pub fn retryable(self) -> (error: Self)
        ensures
            error.deep_view() == (Fault { retryable: true, ..self.deep_view() }),
    {
        VideoError { retryable: true, ..self }
    }

    pub fn with_details(self, details: &str) -> (error: Self)
        ensures
            error.deep_view() == (Fault { details: Some(details@), ..self.deep_view() }),
    {
        VideoError { details: Some(details.to_owned()), ..self }
    }

    pub fn stable_code(&self) -> (text: &'static str)
        ensures
            text@ == self.code.text(),
    {
        self.code.as_str()
    }

    /// The error as one line: its code, its field where it has one, and its message.
    pub fn describe(&self) -> (line: String)
        ensures
            line@ == match self.deep_view().field {
                Some(field) => self.code.text() + " at "@ + field + ": "@ + self.message@,
                None => self.code.text() + ": "@ + self.message@,
            },
    {
        match &self.field {
            Some(field) => {
                let head: String = text_concat(self.code.as_str(), " at ");
                let named: String = text_concat(head.as_str(), field.as_str());
                let colon: String = text_concat(named.as_str(), ": ");
                text_concat(colon.as_str(), self.message.as_str())
            },
            None => {
                let head: String = text_concat(self.code.as_str(), ": ");
                text_concat(head.as_str(), self.message.as_str())
            },
        }
    }
}

/// The refusal of one field with a message.
pub fn refuse(code: VideoErrorCode, message: &str, field: &str) -> (error: VideoError)
    ensures
        error.deep_view() == fault_at(code, message@, field@),
{
    VideoError::new(code, message).at(field)
}

} // verus!
